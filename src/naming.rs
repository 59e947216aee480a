use vstd::prelude::*;
use vstd::string::StringSliceAdditionalSpecFns;

use crate::bytes::{append_bytes, copy_bytes};
use crate::crypto::blake3_keyed;
use crate::keys::{argon2_input_ok, get_hasher, is_hash_key, opens_with, EncryptionData, KeyError};
use crate::settings::BackupConfig;
use crate::zfs_diff::SLASH;

verus! {

/// The lowercase hexadecimal digit of a value below 16.
pub open spec fn hex_digit(d: u8) -> u8 {
    if d < 10 {
        (48 + d) as u8
    } else {
        (87 + d) as u8
    }
}

/// Two lowercase hexadecimal digits per byte, high half first.
pub open spec fn hex_spec(b: Seq<u8>) -> Seq<u8> {
    Seq::new(
        2 * b.len(),
        |i: int|
            if i % 2 == 0 {
                hex_digit(b[i / 2] / 16)
            } else {
                hex_digit(b[i / 2] % 16)
            },
    )
}

/// The decimal digits of `n`, most significant first.
pub open spec fn decimal_spec(n: nat) -> Seq<u8>
    decreases n,
{
    if n < 10 {
        seq![(48 + n) as u8]
    } else {
        decimal_spec(n / 10).push((48 + n % 10) as u8)
    }
}

/// `PathBuf::push` on bytes: an absolute `comp` replaces the path, else it is
/// joined with one separator.
pub open spec fn path_push(base: Seq<u8>, comp: Seq<u8>) -> Seq<u8> {
    if comp.len() > 0 && comp[0] == SLASH {
        comp
    } else if base.len() == 0 || base.last() == SLASH {
        base + comp
    } else {
        base.push(SLASH) + comp
    }
}

/// `.zfs/snapshot`
pub open spec fn snapshot_dir() -> Seq<u8> {
    seq![46u8, 122, 102, 115, 47, 115, 110, 97, 112, 115, 104, 111, 116]
}

/// `snapshots`
pub open spec fn snapshots_prefix() -> Seq<u8> {
    seq![115u8, 110, 97, 112, 115, 104, 111, 116, 115]
}

/// The key under which part `index` of a snapshot is stored:
/// `snapshots/<name>/<index>`.
pub open spec fn part_key_spec(key_name: Seq<u8>, index: nat) -> Seq<u8> {
    snapshots_prefix().push(SLASH) + key_name + seq![SLASH] + decimal_spec(index)
}

/// The name under which a snapshot's parts are stored: the name itself, or
/// the hex of its keyed hash where names are hidden.
pub open spec fn key_name_spec(name: Seq<u8>, hash_key: Option<Seq<u8>>) -> Seq<u8> {
    match hash_key {
        None => name,
        Some(k) => hex_spec(blake3_keyed(k, name)),
    }
}

fn hex_digit_exec(d: u8) -> (r: u8)
    requires
        d < 16,
    ensures
        r == hex_digit(d),
{
    if d < 10 {
        48 + d
    } else {
        87 + d
    }
}

/// Lowercase hexadecimal of `b`.
pub fn hex_lower(b: &[u8]) -> (r: Vec<u8>)
    ensures
        r@ == hex_spec(b@),
{
    let mut out: Vec<u8> = Vec::new();
    let mut i: usize = 0;
    while i < b.len()
        invariant
            i <= b@.len(),
            out@ =~= hex_spec(b@.take(i as int)),
        decreases b@.len() - i,
    {
        let x = b[i];
        out.push(hex_digit_exec(x / 16));
        out.push(hex_digit_exec(x % 16));
        i += 1;
        proof {
            let t = b@.take(i as int);
            assert forall|j: int| 0 <= j < 2 * t.len() implies out@[j] == hex_spec(t)[j] by {
                assert(t[j / 2] == b@[j / 2]);
                if j < 2 * (i - 1) {
                    assert(b@.take(i - 1)[j / 2] == b@[j / 2]);
                }
            }
        }
    }
    proof {
        assert(b@.take(i as int) =~= b@);
    }
    out
}

/// Appends the decimal digits of `n`.
pub fn push_decimal(out: &mut Vec<u8>, n: u64)
    ensures
        final(out)@ == old(out)@ + decimal_spec(n as nat),
    decreases n,
{
    if n >= 10 {
        push_decimal(out, n / 10);
    }
    out.push(48 + (n % 10) as u8);
    proof {
        assert(final(out)@ =~= old(out)@ + decimal_spec(n as nat));
    }
}

/// The key of part `index` of the snapshot stored as `key_name`.
pub fn part_object_key(key_name: &[u8], index: u64) -> (r: Vec<u8>)
    ensures
        r@ == part_key_spec(key_name@, index as nat),
{
    let mut out: Vec<u8> = Vec::new();
    out.push(115);
    out.push(110);
    out.push(97);
    out.push(112);
    out.push(115);
    out.push(104);
    out.push(111);
    out.push(116);
    out.push(115);
    out.push(SLASH);
    append_bytes(&mut out, key_name);
    out.push(SLASH);
    push_decimal(&mut out, index);
    proof {
        assert(out@ =~= part_key_spec(key_name@, index as nat));
    }
    out
}

/// The name under which a snapshot's parts are stored: the name itself, or,
/// with a hashing key, the hex of the name's keyed hash.
pub fn key_snapshot_name(snapshot_name: &str, hash_key: Option<&Vec<u8>>) -> (r: Vec<u8>)
    requires
        hash_key matches Some(k) ==> k@.len() == 32,
    ensures
        r@ == key_name_spec(
            snapshot_name.spec_bytes(),
            match hash_key {
                Some(k) => Some(k@),
                None => None,
            },
        ),
        hash_key is Some ==> r@.len() == 64,
{
    match hash_key {
        None => copy_bytes(snapshot_name.as_bytes()),
        Some(k) => {
            let digest = crate::crypto::blake3_keyed_hash(k.as_slice(), snapshot_name.as_bytes());
            hex_lower(digest.as_slice())
        },
    }
}

/// The configuration hides snapshot names.
pub open spec fn hides_names(config: BackupConfig) -> bool {
    config.encryption matches Some(e) && e.encrypt_snapshot_names
}

/// The name under which a snapshot's parts are stored, as the configuration
/// asks: the name itself, or, where names are hidden, the hex of its keyed
/// hash under the name-hashing key that the password opens.
pub fn stored_snapshot_name(
    config: &BackupConfig,
    snapshot_name: &str,
    password: Option<&[u8]>,
    data: Option<&EncryptionData>,
) -> (r: Result<Vec<u8>, KeyError>)
    requires
        data matches Some(d) ==> d.wf(),
    ensures
        !hides_names(*config) ==> (r matches Ok(n) && n@ == snapshot_name.spec_bytes()),
        hides_names(*config) ==> match (password, data) {
            (Some(pw), Some(d)) => {
                &&& r matches Ok(n) ==> n@.len() == 64 && exists|k: Seq<u8>|
                    is_hash_key(pw@, *d, k) && n@ == key_name_spec(snapshot_name.spec_bytes(), Some(k))
                &&& argon2_input_ok(pw@, d.password_derived_key_salt@) ==> (r is Ok <==> opens_with(
                    *d,
                    pw@,
                ))
            },
            _ => r == Err::<Vec<u8>, KeyError>(KeyError::NoKeyMaterial),
        },
{
    let hide = match &config.encryption {
        Some(e) => e.encrypt_snapshot_names,
        None => false,
    };
    if !hide {
        return Ok(key_snapshot_name(snapshot_name, None));
    }
    match (password, data) {
        (Some(pw), Some(d)) => {
            let k = get_hasher(pw, d)?;
            Ok(key_snapshot_name(snapshot_name, Some(&k)))
        },
        _ => Err(KeyError::NoKeyMaterial),
    }
}

fn push_path(base: Vec<u8>, comp: &[u8]) -> (r: Vec<u8>)
    ensures
        r@ == path_push(base@, comp@),
{
    if comp.len() > 0 && comp[0] == SLASH {
        return copy_bytes(comp);
    }
    let mut out = base;
    if out.len() > 0 && out[out.len() - 1] != SLASH {
        out.push(SLASH);
    }
    append_bytes(&mut out, comp);
    out
}

/// Where the read-only snapshot `snapshot` of a dataset mounted at `zfs_path`
/// can be read: `<zfs_path>/.zfs/snapshot/<snapshot>`.
pub fn zfs_get_snapshot_path(zfs_path: Vec<u8>, snapshot: &str) -> (r: Vec<u8>)
    ensures
        r@ == path_push(path_push(zfs_path@, snapshot_dir()), snapshot.spec_bytes()),
{
    let mut dir: Vec<u8> = Vec::new();
    dir.push(46);
    dir.push(122);
    dir.push(102);
    dir.push(115);
    dir.push(47);
    dir.push(115);
    dir.push(110);
    dir.push(97);
    dir.push(112);
    dir.push(115);
    dir.push(104);
    dir.push(111);
    dir.push(116);
    proof {
        assert(dir@ =~= snapshot_dir());
    }
    let p = push_path(zfs_path, dir.as_slice());
    push_path(p, snapshot.as_bytes())
}

} // verus!
