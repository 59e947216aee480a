use vstd::prelude::*;

use aes_gcm::aead::{Aead, KeyInit};
use aead::stream::{NewStream, StreamPrimitive};

verus! {

/// What Argon2 with its default parameters derives, 32 bytes, from a password
/// and a salt.
pub uninterp spec fn argon2_key(password: Seq<u8>, salt: Seq<u8>) -> Seq<u8>;

/// AES-256-GCM of `plaintext` under `key` with the all-zero 12-byte nonce and
/// no associated data: ciphertext and tag.
pub uninterp spec fn gcm_seal(key: Seq<u8>, plaintext: Seq<u8>) -> Seq<u8>;

/// Chunk `position` of a STREAM-BE32 encryption with AES-256-GCM under `key`
/// and the 7-byte stream nonce `nonce`; `last` marks the final chunk.
pub uninterp spec fn stream_seal(
    key: Seq<u8>,
    nonce: Seq<u8>,
    position: nat,
    last: bool,
    plaintext: Seq<u8>,
) -> Seq<u8>;

/// The keyed BLAKE3 hash of `data` under `key`, 32 bytes.
pub uninterp spec fn blake3_keyed(key: Seq<u8>, data: Seq<u8>) -> Seq<u8>;

/// Largest plaintext that AES-GCM accepts, in bytes.
pub const GCM_MAX_PLAINTEXT: u64 = 0x10_0000_0000;

/// Relies on argon2's `Argon2::default().hash_password_into` into 32 bytes,
/// which fails exactly for a salt under 8 bytes or an input over 2^32 - 1
/// bytes.
#[verifier::external_body]
pub(crate) fn argon2_hash(password: &[u8], salt: &[u8]) -> (r: Option<Vec<u8>>)
    ensures
        r matches Some(k) ==> k@ == argon2_key(password@, salt@) && k@.len() == 32,
        r is Some <==> (8 <= salt@.len() <= 0xffff_ffff && password@.len() <= 0xffff_ffff),
{
    let mut out = vec![0u8; 32];
    match argon2::Argon2::default().hash_password_into(password, salt, &mut out) {
        Ok(()) => Some(out),
        Err(_) => None,
    }
}

/// Relies on aes-gcm's `Aes256Gcm::encrypt` with the default (all-zero) nonce:
/// the ciphertext is the plaintext's length plus a 16-byte tag, and only a
/// plaintext over 2^36 bytes is refused.
#[verifier::external_body]
pub(crate) fn gcm_seal_zero_nonce(key: &[u8], plaintext: &[u8]) -> (r: Option<Vec<u8>>)
    requires
        key@.len() == 32,
    ensures
        r matches Some(c) ==> c@ == gcm_seal(key@, plaintext@) && c@.len() == plaintext@.len() + 16,
        plaintext@.len() <= GCM_MAX_PLAINTEXT ==> r is Some,
{
    let cipher = aes_gcm::Aes256Gcm::new(aes_gcm::Key::<aes_gcm::Aes256Gcm>::from_slice(key));
    cipher.encrypt(&aes_gcm::Nonce::default(), plaintext).ok()
}

/// Relies on aes-gcm's `Aes256Gcm::decrypt` with the default (all-zero) nonce:
/// it returns a plaintext, 16 bytes shorter than the ciphertext, only when the
/// tag authenticates, that is when the ciphertext is the sealing of that
/// plaintext, and the sealing of a plaintext of at most 2^36 bytes opens to
/// that plaintext (a longer ciphertext is refused).
#[verifier::external_body]
pub(crate) fn gcm_open_zero_nonce(key: &[u8], ciphertext: &[u8]) -> (r: Option<Vec<u8>>)
    requires
        key@.len() == 32,
    ensures
        r matches Some(p) ==> gcm_seal(key@, p@) == ciphertext@ && p@.len() + 16
            == ciphertext@.len(),
        forall|p: Seq<u8>|
            p.len() <= GCM_MAX_PLAINTEXT && gcm_seal(key@, p) == ciphertext@ ==> r is Some && r->0@
                == p,
{
    let cipher = aes_gcm::Aes256Gcm::new(aes_gcm::Key::<aes_gcm::Aes256Gcm>::from_slice(key));
    cipher.decrypt(&aes_gcm::Nonce::default(), ciphertext).ok()
}

/// Relies on aead's `StreamBE32<Aes256Gcm>::encrypt` at a given position: the
/// chunk's ciphertext is its length plus a 16-byte tag, and only a plaintext
/// over 2^36 bytes is refused.
#[verifier::external_body]
pub(crate) fn stream_seal_chunk(
    key: &[u8],
    nonce: &[u8],
    position: u32,
    last: bool,
    plaintext: &[u8],
) -> (r: Option<Vec<u8>>)
    requires
        key@.len() == 32,
        nonce@.len() == 7,
    ensures
        r matches Some(c) ==> c@ == stream_seal(key@, nonce@, position as nat, last, plaintext@)
            && c@.len() == plaintext@.len() + 16,
        plaintext@.len() <= GCM_MAX_PLAINTEXT ==> r is Some,
{
    let cipher = aes_gcm::Aes256Gcm::new(aes_gcm::Key::<aes_gcm::Aes256Gcm>::from_slice(key));
    let stream = aead::stream::StreamBE32::from_aead(
        cipher,
        aead::generic_array::GenericArray::from_slice(nonce),
    );
    stream.encrypt(position, last, plaintext).ok()
}

/// Relies on blake3's `keyed_hash`: a 32-byte digest.
#[verifier::external_body]
pub(crate) fn blake3_keyed_hash(key: &[u8], data: &[u8]) -> (r: Vec<u8>)
    requires
        key@.len() == 32,
    ensures
        r@ == blake3_keyed(key@, data@),
        r@.len() == 32,
{
    let key: &[u8; 32] = key.try_into().unwrap();
    blake3::keyed_hash(key, data).as_bytes().to_vec()
}

/// Relies on rand's `thread_rng().fill_bytes`: `n` bytes from a
/// cryptographically secure generator; nothing is known of their values.
#[verifier::external_body]
pub(crate) fn random_bytes(n: usize) -> (r: Vec<u8>)
    ensures
        r@.len() == n,
{
    let mut out = vec![0u8; n];
    rand::RngCore::fill_bytes(&mut rand::thread_rng(), &mut out);
    out
}

/// Relies on std's `String::from_utf8`: it accepts exactly the valid UTF-8
/// byte strings, whose characters encode back to the same bytes.
#[verifier::external_body]
pub(crate) fn string_from_utf8(b: Vec<u8>) -> (r: Option<String>)
    ensures
        r matches Some(s) ==> vstd::utf8::encode_utf8(s@) == b@,
        vstd::utf8::valid_utf8(b@) ==> r is Some,
{
    String::from_utf8(b).ok()
}

} // verus!
