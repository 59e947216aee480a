use vstd::prelude::*;

use crate::backup_steps::BackupData;
use crate::hot_data::RemoteHotDataInMemory;

verus! {

/// Value of a hexadecimal digit, either case; -1 for another byte.
pub open spec fn hex_val(c: u8) -> int {
    if 48 <= c <= 57 {
        c - 48
    } else if 97 <= c <= 102 {
        c - 87
    } else if 65 <= c <= 70 {
        c - 55
    } else {
        -1
    }
}

/// The bytes that a hexadecimal text stands for, two digits per byte.
pub open spec fn hex_decode_spec(s: Seq<u8>) -> Option<Seq<u8>> {
    if s.len() % 2 == 0 && forall|i: int| 0 <= i < s.len() ==> hex_val(#[trigger] s[i]) >= 0 {
        Some(Seq::new((s.len() / 2) as nat, |i: int| (16 * hex_val(s[2 * i]) + hex_val(s[2 * i + 1])) as u8))
    } else {
        None
    }
}

/// Relies on hex's `decode`: it accepts an even number of hexadecimal digits
/// of either case and gives one byte per pair.
#[verifier::external_body]
fn hex_decode(s: &[u8]) -> (r: Option<Vec<u8>>)
    ensures
        match hex_decode_spec(s@) {
            Some(v) => r matches Some(b) && b@ == v,
            None => r is None,
        },
{
    hex::decode(s).ok()
}

/// Where the encryption password comes from.
#[derive(Debug, Clone)]
pub enum EncryptionPassword {
    /// The bytes of the text.
    Plain(String),
    /// The bytes that the hexadecimal text stands for.
    Hex(String),
    /// The contents of the file at this path.
    File(String),
}

/// Why the password could not be had.
#[derive(Debug, Clone, Copy, PartialEq, Eq, Structural)]
pub enum PasswordError {
    /// The hexadecimal text is not an even number of hex digits.
    BadHex,
    /// The password file was not read.
    FileNotRead,
}

impl EncryptionPassword {
    /// The password's bytes. For a password file, `file_contents` is what
    /// the file holds.
    pub fn get_bytes(&self, file_contents: Option<Vec<u8>>) -> (r: Result<Vec<u8>, PasswordError>)
        ensures
            match self {
                EncryptionPassword::Plain(s) => r matches Ok(b) && b@ == vstd::utf8::encode_utf8(s@),
                EncryptionPassword::Hex(s) => match hex_decode_spec(vstd::utf8::encode_utf8(s@)) {
                    Some(v) => r matches Ok(b) && b@ == v,
                    None => r == Err::<Vec<u8>, PasswordError>(PasswordError::BadHex),
                },
                EncryptionPassword::File(_) => match file_contents {
                    Some(c) => r == Ok::<Vec<u8>, PasswordError>(c),
                    None => r == Err::<Vec<u8>, PasswordError>(PasswordError::FileNotRead),
                },
            },
    {
        match self {
            EncryptionPassword::Plain(s) => Ok(crate::bytes::copy_bytes(s.as_str().as_bytes())),
            EncryptionPassword::Hex(s) => match hex_decode(s.as_str().as_bytes()) {
                Some(b) => Ok(b),
                None => Err(PasswordError::BadHex),
            },
            EncryptionPassword::File(_) => match file_contents {
                Some(c) => Ok(c),
                None => Err(PasswordError::FileNotRead),
            },
        }
    }
}

/// Encryption settings. Whether a backup is encrypted cannot change later;
/// the password can.
#[derive(Debug, Clone)]
pub struct EncryptionConfig {
    pub password: EncryptionPassword,
    /// Store parts under a keyed hash of the snapshot name instead of the name.
    pub encrypt_snapshot_names: bool,
}

/// The configuration of a backup.
#[derive(Debug, Clone)]
pub struct BackupConfig {
    pub encryption: Option<EncryptionConfig>,
    /// Name of the dataset, such as `pool/files`.
    pub zfs_dataset_name: String,
    /// Store one empty part for an empty stream.
    pub create_empty_objects: bool,
}

/// The state that a backup run works with.
pub struct BackupSteps {
    pub config: BackupConfig,
    pub backup_data: BackupData,
    pub remote_hot_data: Option<RemoteHotDataInMemory>,
}

/// `backup status`: show the local data.
#[derive(Debug, Clone)]
pub struct BackupStatusCommand {
    pub data_path: String,
}

/// `backup start`: back up a snapshot, taking it first if asked to.
#[derive(Debug, Clone)]
pub struct BackupStartCommand {
    pub config_path: String,
    pub data_path: String,
    pub snapshot_name: Option<String>,
    pub take_snapshot: bool,
    pub allow_empty: bool,
}

/// `backup continue`: go on with the run in progress.
#[derive(Debug, Clone)]
pub struct BackupContinueCommand {
    pub config_path: String,
    pub data_path: String,
}

/// `backup status`, `backup start` or `backup continue`.
#[derive(Debug, Clone)]
pub enum BackupCommand {
    Status(BackupStatusCommand),
    Start(BackupStartCommand),
    Continue(BackupContinueCommand),
}

/// `change-password`
#[derive(Debug, Clone)]
pub struct ChangePasswordCommand {
    pub config_path: String,
    pub data_path: String,
}

/// `check-password`
#[derive(Debug, Clone)]
pub struct CheckPasswordCommand {
    pub config_path: String,
    pub data_path: String,
}

/// `recover-config`
#[derive(Debug, Clone)]
pub struct RecoverConfigCommand {
    pub data_path: String,
}

/// `status`: list the committed snapshots.
#[derive(Debug, Clone)]
pub struct StatusCommand {
    pub config_path: String,
    pub data_path: String,
}

/// A dataset: its pool and its name in the pool.
#[derive(Debug, Clone)]
pub struct ZfsDataset {
    pub zpool: String,
    pub dataset: String,
}

/// A snapshot of a dataset.
#[derive(Debug, Clone)]
pub struct ZfsSnapshot {
    pub zpool: String,
    pub dataset: String,
    pub snapshot_name: String,
}

/// What making sure a snapshot exists did.
#[derive(Debug, Clone, Copy, PartialEq, Eq, Structural)]
pub enum ZfsEnsureSnapshotOutput {
    TookSnapshot,
    SnapshotAlreadyExists,
}

/// Whether a snapshot now exists after trying to take it: taking it worked,
/// or it failed because the snapshot was already there. `None` where taking it
/// failed otherwise.
pub fn ensure_snapshot_outcome(took: bool, exists_after_failure: bool) -> (r: Option<
    ZfsEnsureSnapshotOutput,
>)
    ensures
        took ==> r == Some(ZfsEnsureSnapshotOutput::TookSnapshot),
        !took && exists_after_failure ==> r == Some(ZfsEnsureSnapshotOutput::SnapshotAlreadyExists),
        !took && !exists_after_failure ==> r is None,
{
    if took {
        Some(ZfsEnsureSnapshotOutput::TookSnapshot)
    } else if exists_after_failure {
        Some(ZfsEnsureSnapshotOutput::SnapshotAlreadyExists)
    } else {
        None
    }
}

} // verus!
