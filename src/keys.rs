use vstd::prelude::*;

use crate::crypto::{
    argon2_hash, argon2_key, gcm_open_zero_nonce, gcm_seal, gcm_seal_zero_nonce, random_bytes,
};

verus! {

/// Length of every salt, in bytes.
pub const SALT_LEN: usize = 16;

/// Length of a key, in bytes.
pub const KEY_LEN: usize = 32;

/// Why key material could not be used.
#[derive(Debug, Clone, Copy, PartialEq, Eq, Structural)]
pub enum KeyError {
    /// A primitive refused its input.
    CipherFailed,
    /// The password does not open the sealed content key.
    PasswordMismatch,
    /// Snapshot names are hidden, but no password or envelope was given.
    NoKeyMaterial,
}

/// The envelope: salts and the content key sealed under the key derived from
/// the password.
#[derive(Debug, Clone, PartialEq, Eq)]
pub struct EncryptionData {
    /// Salt of the password-derived key.
    pub password_derived_key_salt: Vec<u8>,
    /// The content key sealed under the password-derived key: 32 bytes and a
    /// 16-byte tag.
    pub encrypted_root_key: Vec<u8>,
    /// Salt of the key that encrypts snapshot streams.
    pub aes_256_gcm_salt: Vec<u8>,
    /// Salt of the key that hashes snapshot names.
    pub blake3_salt: Vec<u8>,
}

impl EncryptionData {
    /// Salts and the sealed key have their fixed lengths.
    pub open spec fn wf(&self) -> bool {
        &&& self.password_derived_key_salt@.len() == SALT_LEN
        &&& self.encrypted_root_key@.len() == KEY_LEN + 16
        &&& self.aes_256_gcm_salt@.len() == SALT_LEN
        &&& self.blake3_salt@.len() == SALT_LEN
    }
}

/// `password` opens the envelope: the sealed key is some 32-byte key sealed
/// under the key that the password derives.
pub open spec fn opens_with(d: EncryptionData, password: Seq<u8>) -> bool {
    exists|ck: Seq<u8>|
        ck.len() == KEY_LEN && #[trigger] gcm_seal(
            argon2_key(password, d.password_derived_key_salt@),
            ck,
        ) == d.encrypted_root_key@
}

/// Inputs that Argon2 accepts.
pub open spec fn argon2_input_ok(password: Seq<u8>, salt: Seq<u8>) -> bool {
    8 <= salt.len() <= 0xffff_ffff && password.len() <= 0xffff_ffff
}

/// The key that a password derives with a salt.
pub fn derive_key(password: &[u8], salt: &[u8]) -> (r: Result<Vec<u8>, KeyError>)
    ensures
        r matches Ok(k) ==> k@ == argon2_key(password@, salt@) && k@.len() == KEY_LEN,
        r is Err ==> r == Err::<Vec<u8>, KeyError>(KeyError::CipherFailed),
        r is Ok <==> argon2_input_ok(password@, salt@),
{
    match argon2_hash(password, salt) {
        Some(k) => Ok(k),
        None => Err(KeyError::CipherFailed),
    }
}

/// A fresh random content key.
pub fn create_immutable_key() -> (r: Vec<u8>)
    ensures
        r@.len() == KEY_LEN,
{
    random_bytes(KEY_LEN)
}

/// A fresh random salt and the key that the password derives with it.
pub fn generate_salt_and_derive_key(password: &[u8]) -> (r: Result<(Vec<u8>, Vec<u8>), KeyError>)
    ensures
        r matches Ok((salt, key)) ==> salt@.len() == SALT_LEN && key@ == argon2_key(
            password@,
            salt@,
        ) && key@.len() == KEY_LEN && argon2_input_ok(password@, salt@),
        password@.len() <= 0xffff_ffff ==> r is Ok,
{
    let salt = random_bytes(SALT_LEN);
    let key = derive_key(password, salt.as_slice())?;
    Ok((salt, key))
}

/// Seals the content key under the password-derived key.
pub fn encrypt_immutable_key(password_derived_key: &[u8], immutable_key: &[u8]) -> (r: Result<
    Vec<u8>,
    KeyError,
>)
    requires
        password_derived_key@.len() == KEY_LEN,
        immutable_key@.len() == KEY_LEN,
    ensures
        r matches Ok(c) ==> c@ == gcm_seal(password_derived_key@, immutable_key@) && c@.len()
            == KEY_LEN + 16,
        r is Ok,
{
    match gcm_seal_zero_nonce(password_derived_key, immutable_key) {
        Some(c) => Ok(c),
        None => Err(KeyError::CipherFailed),
    }
}

/// Opens the content key with a password.
pub fn decrypt_immutable_key(password: &[u8], data: &EncryptionData) -> (r: Result<
    Vec<u8>,
    KeyError,
>)
    requires
        data.wf(),
    ensures
        r matches Ok(ck) ==> gcm_seal(
            argon2_key(password@, data.password_derived_key_salt@),
            ck@,
        ) == data.encrypted_root_key@ && ck@.len() == KEY_LEN && argon2_input_ok(
            password@,
            data.password_derived_key_salt@,
        ),
        argon2_input_ok(password@, data.password_derived_key_salt@) ==> (r is Ok <==> opens_with(
            *data,
            password@,
        )),
        r == Err::<Vec<u8>, KeyError>(KeyError::PasswordMismatch) <==> (argon2_input_ok(
            password@,
            data.password_derived_key_salt@,
        ) && !opens_with(*data, password@)),
        argon2_input_ok(password@, data.password_derived_key_salt@) ==> forall|ck: Seq<u8>|
            ck.len() == KEY_LEN && #[trigger] gcm_seal(
                argon2_key(password@, data.password_derived_key_salt@),
                ck,
            ) == data.encrypted_root_key@ ==> (r matches Ok(x) && x@ == ck),
{
    let kek = derive_key(password, data.password_derived_key_salt.as_slice())?;
    match gcm_open_zero_nonce(kek.as_slice(), data.encrypted_root_key.as_slice()) {
        Some(ck) => Ok(ck),
        None => Err(KeyError::PasswordMismatch),
    }
}

/// Checks that a password opens the envelope.
pub fn check_password(password: &[u8], data: &EncryptionData) -> (r: Result<(), KeyError>)
    requires
        data.wf(),
    ensures
        r is Ok ==> opens_with(*data, password@),
        argon2_input_ok(password@, data.password_derived_key_salt@) ==> (r is Ok <==> opens_with(
            *data,
            password@,
        )),
        r == Err::<(), KeyError>(KeyError::PasswordMismatch) <==> (argon2_input_ok(
            password@,
            data.password_derived_key_salt@,
        ) && !opens_with(*data, password@)),
{
    match decrypt_immutable_key(password, data) {
        Ok(_) => Ok(()),
        Err(e) => Err(e),
    }
}

/// A fresh envelope for a password: random salts and a random content key.
pub fn init_encryption_data(password: &[u8]) -> (r: Result<EncryptionData, KeyError>)
    ensures
        r matches Ok(d) ==> d.wf() && opens_with(d, password@),
        password@.len() <= 0xffff_ffff ==> r is Ok,
{
    let (salt, kek) = generate_salt_and_derive_key(password)?;
    let content_key = create_immutable_key();
    let sealed = encrypt_immutable_key(kek.as_slice(), content_key.as_slice())?;
    let d = EncryptionData {
        password_derived_key_salt: salt,
        encrypted_root_key: sealed,
        aes_256_gcm_salt: random_bytes(SALT_LEN),
        blake3_salt: random_bytes(SALT_LEN),
    };
    proof {
        assert(gcm_seal(argon2_key(password@, d.password_derived_key_salt@), content_key@)
            == d.encrypted_root_key@);
    }
    Ok(d)
}

/// The envelope `new` is `old` with the content key re-sealed for a new
/// password: every key the old password opens is the key the new one opens,
/// and the other salts are kept.
pub open spec fn password_changed(
    old: EncryptionData,
    old_password: Seq<u8>,
    new: EncryptionData,
    new_password: Seq<u8>,
) -> bool {
    &&& new.wf()
    &&& new.aes_256_gcm_salt@ == old.aes_256_gcm_salt@
    &&& new.blake3_salt@ == old.blake3_salt@
    &&& argon2_input_ok(old_password, old.password_derived_key_salt@)
    &&& argon2_input_ok(new_password, new.password_derived_key_salt@)
    &&& forall|ck: Seq<u8>|
        ck.len() == KEY_LEN && #[trigger] gcm_seal(
            argon2_key(old_password, old.password_derived_key_salt@),
            ck,
        ) == old.encrypted_root_key@ ==> gcm_seal(
            argon2_key(new_password, new.password_derived_key_salt@),
            ck,
        ) == new.encrypted_root_key@
    &&& exists|ck: Seq<u8>|
        ck.len() == KEY_LEN && gcm_seal(argon2_key(old_password, old.password_derived_key_salt@), ck)
            == old.encrypted_root_key@ && gcm_seal(
            argon2_key(new_password, new.password_derived_key_salt@),
            ck,
        ) == new.encrypted_root_key@
}

/// Re-seals the content key for a new password under a fresh salt.
pub fn change_password(old_password: &[u8], new_password: &[u8], data: &EncryptionData) -> (r:
    Result<EncryptionData, KeyError>)
    requires
        data.wf(),
    ensures
        r matches Ok(d) ==> password_changed(*data, old_password@, d, new_password@),
        argon2_input_ok(old_password@, data.password_derived_key_salt@) && new_password@.len()
            <= 0xffff_ffff ==> (r is Ok <==> opens_with(*data, old_password@)),
{
    let content_key = decrypt_immutable_key(old_password, data)?;
    let (salt, kek) = generate_salt_and_derive_key(new_password)?;
    let sealed = encrypt_immutable_key(kek.as_slice(), content_key.as_slice())?;
    let d = EncryptionData {
        password_derived_key_salt: salt,
        encrypted_root_key: sealed,
        aes_256_gcm_salt: crate::bytes::copy_bytes(data.aes_256_gcm_salt.as_slice()),
        blake3_salt: crate::bytes::copy_bytes(data.blake3_salt.as_slice()),
    };
    proof {
        assert(gcm_seal(argon2_key(old_password@, data.password_derived_key_salt@), content_key@)
            == data.encrypted_root_key@);
        assert(gcm_seal(argon2_key(new_password@, d.password_derived_key_salt@), content_key@)
            == d.encrypted_root_key@);
    }
    Ok(d)
}

/// The key that encrypts snapshot streams: derived from the content key with
/// the stream salt, so that it never meets the content key's own nonce.
pub fn stream_key(content_key: &[u8], data: &EncryptionData) -> (r: Result<Vec<u8>, KeyError>)
    requires
        data.wf(),
    ensures
        r matches Ok(k) ==> k@ == argon2_key(content_key@, data.aes_256_gcm_salt@) && k@.len()
            == KEY_LEN,
        content_key@.len() <= 0xffff_ffff ==> r is Ok,
{
    derive_key(content_key, data.aes_256_gcm_salt.as_slice())
}

/// `k` is the name-hashing key of the envelope that `password` opens.
pub open spec fn is_hash_key(password: Seq<u8>, data: EncryptionData, k: Seq<u8>) -> bool {
    &&& k.len() == KEY_LEN
    &&& exists|ck: Seq<u8>|
        gcm_seal(argon2_key(password, data.password_derived_key_salt@), ck) == data.encrypted_root_key@
            && k == argon2_key(ck, data.blake3_salt@)
}

/// The key that hashes snapshot names: derived from the content key, which
/// the password opens, with the name-hashing salt.
pub fn get_hasher(encryption_password: &[u8], data: &EncryptionData) -> (r: Result<
    Vec<u8>,
    KeyError,
>)
    requires
        data.wf(),
    ensures
        r matches Ok(k) ==> is_hash_key(encryption_password@, *data, k@),
        argon2_input_ok(encryption_password@, data.password_derived_key_salt@) ==> (r is Ok
            <==> opens_with(*data, encryption_password@)),
{
    let ck = decrypt_immutable_key(encryption_password, data)?;
    derive_key(ck.as_slice(), data.blake3_salt.as_slice())
}

/// After a change of password the new password opens the envelope, and the
/// content key it opens is the one the old password opened.
pub proof fn lemma_new_password_opens(
    old: EncryptionData,
    old_password: Seq<u8>,
    new: EncryptionData,
    new_password: Seq<u8>,
)
    requires
        password_changed(old, old_password, new, new_password),
    ensures
        opens_with(new, new_password),
        opens_with(old, old_password),
{
}

/// Rewriting the envelope for a new password keeps the hot metadata
/// readable: the sealed list of names that the old password opened is opened
/// by the new password, with the same content key, to the same names.
pub proof fn lemma_hot_data_survives_password_change(
    old: EncryptionData,
    old_password: Seq<u8>,
    new: EncryptionData,
    new_password: Seq<u8>,
    encrypted_data: Vec<u8>,
    k: (Seq<u8>, Seq<Seq<char>>),
)
    requires
        password_changed(old, old_password, new, new_password),
        crate::hot_data::opens_to(
            crate::hot_data::RemoteHotDataEncrypted { encryption_data: old, encrypted_data },
            old_password,
            k,
        ),
    ensures
        crate::hot_data::opens_to(
            crate::hot_data::RemoteHotDataEncrypted { encryption_data: new, encrypted_data },
            new_password,
            k,
        ),
        argon2_input_ok(new_password, new.password_derived_key_salt@),
{
}

} // verus!
