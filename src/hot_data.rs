use vstd::prelude::*;
use vstd::utf8::encode_utf8;

use crate::backup_steps::names_view;
use crate::bytes::{append_bytes, prefix_at};
use crate::crypto::{
    argon2_key, gcm_open_zero_nonce, gcm_seal, gcm_seal_zero_nonce, string_from_utf8,
    GCM_MAX_PLAINTEXT,
};
use crate::keys::{
    argon2_input_ok, decrypt_immutable_key, opens_with, EncryptionData, KeyError, KEY_LEN, SALT_LEN,
};
use crate::record::{decode_str, str_spec};
use crate::varint::{
    decode_varint, encode_varint, lemma_varint_decode_at, lemma_varint_encode_decode,
    varint_decode_spec, varint_spec,
};

verus! {

/// The payload of the hot metadata: the committed snapshots, oldest first.
#[derive(Debug, Clone)]
pub struct RemoteHotEncryptedData {
    pub snapshots: Vec<String>,
}

/// Hot metadata whose payload is sealed under the content key.
#[derive(Debug, Clone)]
pub struct RemoteHotDataEncrypted {
    pub encryption_data: EncryptionData,
    pub encrypted_data: Vec<u8>,
}

/// The hot metadata as stored in the bucket.
#[derive(Debug, Clone)]
pub enum RemoteHotData {
    NotEncrypted(RemoteHotEncryptedData),
    Encrypted(RemoteHotDataEncrypted),
}

/// The hot metadata with its payload in the clear.
#[derive(Debug, Clone)]
pub struct RemoteHotDataInMemory {
    pub encryption: Option<EncryptionData>,
    pub data: RemoteHotEncryptedData,
}

/// Why the hot metadata cannot be read or written.
#[derive(Debug, Clone, Copy, PartialEq, Eq, Structural)]
pub enum HotDataError {
    /// The configuration and the stored object disagree on encryption.
    ConfigRemoteMismatch,
    /// The password does not open the envelope.
    PasswordMismatch,
    /// The stored bytes are not hot metadata.
    HotMetadataCorrupt,
    /// A primitive refused its input.
    CipherFailed,
}

/// Each byte string with its length prefix, in order.
pub open spec fn strs_bytes(bs: Seq<Seq<u8>>) -> Seq<u8>
    decreases bs.len(),
{
    if bs.len() == 0 {
        Seq::empty()
    } else {
        strs_bytes(bs.drop_last()) + str_spec(bs.last())
    }
}

/// The UTF-8 of each name.
pub open spec fn utf8_all(names: Seq<Seq<char>>) -> Seq<Seq<u8>> {
    names.map_values(|n: Seq<char>| encode_utf8(n))
}

/// The payload's encoding: the number of names, then the UTF-8 of each name
/// with its length prefix.
pub open spec fn snapshots_spec(names: Seq<Seq<char>>) -> Seq<u8> {
    varint_spec(names.len()) + strs_bytes(utf8_all(names))
}

/// `b` holds at `pos` the names `t`, each valid UTF-8, after their count.
pub open spec fn names_at(b: Seq<u8>, pos: int, t: Seq<Seq<u8>>) -> bool {
    &&& t.len() < 0x1_0000_0000_0000_0000
    &&& forall|k: int| 0 <= k < t.len() ==> vstd::utf8::valid_utf8(#[trigger] t[k])
    &&& prefix_at(b, pos, varint_spec(t.len()) + strs_bytes(t))
}

/// Different name lists have different UTF-8.
pub proof fn lemma_utf8_all_injective(a: Seq<Seq<char>>, b: Seq<Seq<char>>)
    requires
        utf8_all(a) == utf8_all(b),
    ensures
        a == b,
{
    assert(a.len() == utf8_all(a).len());
    assert forall|i: int| 0 <= i < a.len() implies a[i] == b[i] by {
        assert(utf8_all(a)[i] == encode_utf8(a[i]));
        assert(utf8_all(b)[i] == encode_utf8(b[i]));
        vstd::utf8::encode_utf8_decode_utf8(a[i]);
        vstd::utf8::encode_utf8_decode_utf8(b[i]);
    }
    assert(a =~= b);
}

proof fn lemma_strs_len(t: Seq<Seq<u8>>)
    ensures
        strs_bytes(t).len() >= t.len(),
    decreases t.len(),
{
    if t.len() > 0 {
        lemma_strs_len(t.drop_last());
        crate::varint::lemma_varint_len(t.last().len());
    }
}

/// Where the parts of `h`'s encoding stand in `b`.
spec fn hot_layout(b: Seq<u8>, h: RemoteHotData) -> bool {
    match h {
        RemoteHotData::NotEncrypted(d) => {
            let t = utf8_all(names_view(d.snapshots@));
            &&& b.len() > 0
            &&& b[0] == 0
            &&& names_at(b, 1, t)
            &&& b.len() == 1 + varint_spec(t.len()).len() + strs_bytes(t).len()
        },
        RemoteHotData::Encrypted(e) => {
            &&& b.len() > 97
            &&& b[0] == 1
            &&& prefix_at(b, 97, str_spec(e.encrypted_data@))
            &&& b.len() == 97 + str_spec(e.encrypted_data@).len()
        },
    }
}

proof fn lemma_hot_layout(b: Seq<u8>, h: RemoteHotData)
    requires
        hot_data_wf(h),
        hot_data_spec(h) == b,
        b.len() <= usize::MAX,
    ensures
        hot_layout(b, h),
{
    broadcast use vstd::utf8::encode_utf8_valid_utf8;

    match h {
        RemoteHotData::NotEncrypted(d) => {
            let t = utf8_all(names_view(d.snapshots@));
            let w = varint_spec(t.len()) + strs_bytes(t);
            assert(b =~= seq![0u8] + w);
            assert(b.subrange(1, 1 + w.len() as int) =~= w);
            lemma_strs_len(t);
            assert forall|k: int| 0 <= k < t.len() implies vstd::utf8::valid_utf8(#[trigger] t[k]) by {
                assert(t[k] == encode_utf8(names_view(d.snapshots@)[k]));
            }
        },
        RemoteHotData::Encrypted(e) => {
            let c = str_spec(e.encrypted_data@);
            assert(b.subrange(97, 97 + c.len() as int) =~= c);
            crate::varint::lemma_varint_len(e.encrypted_data@.len());
        },
    }
}

proof fn lemma_strs_prefix(t: Seq<Seq<u8>>, j: int)
    requires
        0 <= j <= t.len(),
    ensures
        strs_bytes(t.take(j)).len() <= strs_bytes(t).len(),
        strs_bytes(t).subrange(0, strs_bytes(t.take(j)).len() as int) == strs_bytes(t.take(j)),
    decreases t.len() - j,
{
    if j == t.len() {
        assert(t.take(j) =~= t);
        assert(strs_bytes(t).subrange(0, strs_bytes(t).len() as int) =~= strs_bytes(t));
    } else {
        lemma_strs_prefix(t, j + 1);
        assert(t.take(j + 1).drop_last() =~= t.take(j));
        let a = strs_bytes(t.take(j));
        let c = strs_bytes(t.take(j + 1));
        assert(c == a + str_spec(t[j]));
        assert(strs_bytes(t).subrange(0, a.len() as int) =~= c.subrange(0, a.len() as int));
        assert(c.subrange(0, a.len() as int) =~= a);
    }
}

/// The envelope's encoding: its four byte strings, unprefixed.
pub open spec fn envelope_spec(d: EncryptionData) -> Seq<u8> {
    d.password_derived_key_salt@ + d.encrypted_root_key@ + d.aes_256_gcm_salt@ + d.blake3_salt@
}

/// The stored encoding: tag `0` and the payload, or tag `1`, the envelope and
/// the length-prefixed sealed payload.
pub open spec fn hot_data_spec(h: RemoteHotData) -> Seq<u8> {
    match h {
        RemoteHotData::NotEncrypted(d) => seq![0u8] + snapshots_spec(names_view(d.snapshots@)),
        RemoteHotData::Encrypted(e) => seq![1u8] + envelope_spec(e.encryption_data) + str_spec(
            e.encrypted_data@,
        ),
    }
}

/// A sealed envelope has its fixed lengths.
pub open spec fn hot_data_wf(h: RemoteHotData) -> bool {
    match h {
        RemoteHotData::NotEncrypted(_) => true,
        RemoteHotData::Encrypted(e) => e.encryption_data.wf(),
    }
}

/// Encodes a list of snapshot names.
pub fn encode_snapshots(snapshots: &Vec<String>) -> (r: Vec<u8>)
    ensures
        r@ == snapshots_spec(names_view(snapshots@)),
{
    let mut out = encode_varint(snapshots.len() as u64);
    let ghost head = out@;
    let mut i: usize = 0;
    let ghost t = utf8_all(names_view(snapshots@));
    proof {
        assert(t.take(0) =~= Seq::<Seq<u8>>::empty());
        assert(out@ =~= head + strs_bytes(t.take(0)));
    }
    while i < snapshots.len()
        invariant
            i <= snapshots@.len(),
            t == utf8_all(names_view(snapshots@)),
            head == varint_spec(snapshots@.len() as nat),
            out@ == head + strs_bytes(t.take(i as int)),
        decreases snapshots@.len() - i,
    {
        let b = snapshots[i].as_str().as_bytes();
        let l = encode_varint(b.len() as u64);
        append_bytes(&mut out, l.as_slice());
        append_bytes(&mut out, b);
        proof {
            let u = t.take(i + 1);
            assert(u.drop_last() =~= t.take(i as int));
            assert(u.last() == encode_utf8(snapshots@[i as int]@));
            assert(out@ =~= head + strs_bytes(u));
        }
        i += 1;
    }
    proof {
        assert(t.take(i as int) =~= t);
    }
    out
}

/// Encodes the hot metadata for storage.
pub fn encode_hot_data(h: &RemoteHotData) -> (r: Vec<u8>)
    ensures
        r@ == hot_data_spec(*h),
{
    let mut out: Vec<u8> = Vec::new();
    match h {
        RemoteHotData::NotEncrypted(d) => {
            out.push(0);
            let s = encode_snapshots(&d.snapshots);
            append_bytes(&mut out, s.as_slice());
        },
        RemoteHotData::Encrypted(e) => {
            out.push(1);
            append_bytes(&mut out, e.encryption_data.password_derived_key_salt.as_slice());
            append_bytes(&mut out, e.encryption_data.encrypted_root_key.as_slice());
            append_bytes(&mut out, e.encryption_data.aes_256_gcm_salt.as_slice());
            append_bytes(&mut out, e.encryption_data.blake3_salt.as_slice());
            let l = encode_varint(e.encrypted_data.len() as u64);
            append_bytes(&mut out, l.as_slice());
            append_bytes(&mut out, e.encrypted_data.as_slice());
        },
    }
    proof {
        assert(out@ =~= hot_data_spec(*h));
    }
    out
}

/// Reads an encoded list of snapshot names at `pos`.
#[verifier::rlimit(40)]
fn decode_snapshots(b: &Vec<u8>, pos: usize) -> (r: Option<(Vec<String>, usize)>)
    requires
        pos <= b@.len(),
    ensures
        r matches Some((v, next)) ==> pos <= next <= b@.len() && b@.subrange(pos as int, next as int)
            == snapshots_spec(names_view(v@)),
        forall|t: Seq<Seq<u8>>|
            #[trigger] names_at(b@, pos as int, t) ==> (r matches Some((v, next)) && next == pos
                + varint_spec(t.len()).len() + strs_bytes(t).len() && utf8_all(names_view(v@)) == t),
{
    let dv = decode_varint(b, pos);
    proof {
        assert forall|t: Seq<Seq<u8>>| #[trigger] names_at(b@, pos as int, t) implies {
            let l = varint_spec(t.len()).len() as int;
            &&& varint_decode_spec(b@.skip(pos as int)) == Some((t.len(), l as nat))
            &&& prefix_at(b@, pos + l, strs_bytes(t))
        } by {
            let l = varint_spec(t.len()).len() as int;
            let w = varint_spec(t.len()) + strs_bytes(t);
            assert(b@.subrange(pos as int, pos + l) =~= w.subrange(0, l));
            assert(w.subrange(0, l) =~= varint_spec(t.len()));
            lemma_varint_decode_at(b@, pos as int, t.len());
            assert(b@.subrange(pos + l, pos + w.len()) =~= w.subrange(l, w.len() as int));
            assert(w.subrange(l, w.len() as int) =~= strs_bytes(t));
        }
    }
    match dv {
        None => None,
        Some((count, p0)) => {
            proof {
                lemma_varint_encode_decode(b@.skip(pos as int));
                let (v, k) = varint_decode_spec(b@.skip(pos as int))->0;
                assert(b@.skip(pos as int).take(k as int) =~= b@.subrange(pos as int, p0 as int));
            }
            proof {
                assert forall|t: Seq<Seq<u8>>| #[trigger] names_at(b@, pos as int, t) implies names_fit(
                    b@,
                    p0 as int,
                    count as nat,
                    t,
                ) by {}
            }
            decode_names(b, pos, p0, count)
        },
    }
}

/// `b` holds at `p0` the `count` byte strings `t`, each valid UTF-8.
spec fn names_fit(b: Seq<u8>, p0: int, count: nat, t: Seq<Seq<u8>>) -> bool {
    &&& t.len() == count
    &&& forall|k: int| 0 <= k < t.len() ==> vstd::utf8::valid_utf8(#[trigger] t[k])
    &&& prefix_at(b, p0, strs_bytes(t))
}

#[verifier::rlimit(40)]
fn decode_names(b: &Vec<u8>, pos: usize, p0: usize, count: u64) -> (r: Option<(Vec<String>, usize)>)
    requires
        pos <= p0 <= b@.len(),
        b@.subrange(pos as int, p0 as int) == varint_spec(count as nat),
    ensures
        r matches Some((v, next)) ==> pos <= next <= b@.len() && b@.subrange(pos as int, next as int)
            == snapshots_spec(names_view(v@)),
        forall|t: Seq<Seq<u8>>|
            #[trigger] names_fit(b@, p0 as int, count as nat, t) ==> (r matches Some((v, next))
                && next == p0 + strs_bytes(t).len() && utf8_all(names_view(v@)) == t),
{
    let mut p: usize = p0;
    let mut names: Vec<String> = Vec::new();
    let mut i: u64 = 0;
    proof {
        assert(b@.subrange(p0 as int, p as int) =~= strs_bytes(utf8_all(names_view(names@))));
        assert forall|t: Seq<Seq<u8>>| #[trigger] names_fit(b@, p0 as int, count as nat, t) implies
            utf8_all(names_view(names@)) == t.take(0) && p == p0 + strs_bytes(t.take(0)).len() by {
            assert(t.take(0) =~= Seq::<Seq<u8>>::empty());
            assert(utf8_all(names_view(names@)) =~= t.take(0));
        }
    }
    while i < count
        invariant
            pos <= p0 <= p <= b@.len(),
            b@.subrange(pos as int, p0 as int) == varint_spec(count as nat),
            names@.len() == i,
            i <= count,
            b@.subrange(p0 as int, p as int) == strs_bytes(utf8_all(names_view(names@))),
            forall|t: Seq<Seq<u8>>|
                #[trigger] names_fit(b@, p0 as int, count as nat, t) ==> utf8_all(
                    names_view(names@),
                ) == t.take(i as int) && p == p0 + strs_bytes(t.take(i as int)).len(),
        decreases count - i,
    {
        proof {
            assert forall|t: Seq<Seq<u8>>| #[trigger] names_fit(b@, p0 as int, count as nat, t)
                implies prefix_at(b@, p as int, str_spec(t[i as int])) by {
                lemma_strs_prefix(t, i + 1);
                assert(t.take(i + 1).drop_last() =~= t.take(i as int));
                let a = strs_bytes(t.take(i as int));
                let c = strs_bytes(t.take(i + 1));
                assert(c == a + str_spec(t[i as int]));
                assert(b@.subrange(p as int, p + str_spec(t[i as int]).len()) =~= strs_bytes(
                    t,
                ).subrange(a.len() as int, c.len() as int));
                assert(strs_bytes(t).subrange(a.len() as int, c.len() as int) =~= c.subrange(
                    a.len() as int,
                    c.len() as int,
                ));
                assert(c.subrange(a.len() as int, c.len() as int) =~= str_spec(t[i as int]));
            }
        }
        let (bytes, next) = match decode_str(b, p) {
            None => {
                proof {
                    assert forall|t: Seq<Seq<u8>>| !#[trigger] names_fit(
                        b@,
                        p0 as int,
                        count as nat,
                        t,
                    ) by {
                        if names_fit(b@, p0 as int, count as nat, t) {
                            assert(prefix_at(b@, p as int, str_spec(t[i as int])));
                        }
                    }
                }
                return None;
            },
            Some(x) => x,
        };
        let ghost raw = bytes@;
        proof {
            assert forall|t: Seq<Seq<u8>>| #[trigger] names_fit(b@, p0 as int, count as nat, t)
                implies raw == t[i as int] && next == p + str_spec(t[i as int]).len()
                && vstd::utf8::valid_utf8(raw) by {
                assert(prefix_at(b@, p as int, str_spec(t[i as int])));
            }
        }
        let s = match string_from_utf8(bytes) {
            None => {
                proof {
                    assert forall|t: Seq<Seq<u8>>| !#[trigger] names_fit(
                        b@,
                        p0 as int,
                        count as nat,
                        t,
                    ) by {}
                }
                return None;
            },
            Some(s) => s,
        };
        let ghost before = names@;
        let ghost p_before = p;
        names.push(s);
        proof {
            assert(utf8_all(names_view(names@)).drop_last() =~= utf8_all(names_view(before)));
            assert(utf8_all(names_view(names@)).last() == encode_utf8(s@));
            assert(b@.subrange(p0 as int, next as int) =~= b@.subrange(p0 as int, p as int)
                + b@.subrange(p as int, next as int));
        }
        p = next;
        i += 1;
        proof {
            assert forall|t: Seq<Seq<u8>>| #[trigger] names_fit(b@, p0 as int, count as nat, t)
                implies utf8_all(names_view(names@)) == t.take(i as int) && p == p0 + strs_bytes(
                t.take(i as int),
            ).len() by {
                assert(t.take(i as int).drop_last() =~= t.take(i - 1));
                assert(utf8_all(names_view(names@)) =~= t.take(i as int));
            }
        }
    }
    proof {
        assert(b@.subrange(pos as int, p as int) =~= b@.subrange(pos as int, p0 as int)
            + b@.subrange(p0 as int, p as int));
        assert forall|t: Seq<Seq<u8>>| #[trigger] names_fit(b@, p0 as int, count as nat, t) implies p
            == p0 + strs_bytes(t).len() && utf8_all(names_view(names@)) == t by {
            assert(t.take(i as int) =~= t);
        }
    }
    Some((names, p))
}

fn read_fixed(b: &Vec<u8>, pos: usize, n: usize) -> (r: Option<(Vec<u8>, usize)>)
    requires
        pos <= b@.len(),
    ensures
        r matches Some((s, next)) ==> next == pos + n && next <= b@.len() && s@ == b@.subrange(
            pos as int,
            next as int,
        ) && s@.len() == n,
        pos + n <= b@.len() ==> r is Some,
{
    if n > b.len() - pos {
        return None;
    }
    let end: usize = pos + n;
    let mut out: Vec<u8> = Vec::new();
    let mut i: usize = pos;
    while i < end
        invariant
            end == pos + n,
            pos <= i <= pos + n <= b@.len(),
            out@ == b@.subrange(pos as int, i as int),
        decreases end - i,
    {
        out.push(b[i]);
        i += 1;
        proof {
            assert(out@ =~= b@.subrange(pos as int, i as int));
        }
    }
    Some((out, pos + n))
}

/// Decodes stored hot metadata: the encodings of hot metadata, and only
/// they, decode, each to a value that encodes back to exactly those bytes.
#[verifier::rlimit(40)]
pub fn decode_hot_data(b: &Vec<u8>) -> (r: Option<RemoteHotData>)
    ensures
        r matches Some(h) ==> hot_data_spec(h) == b@ && hot_data_wf(h),
        forall|h: RemoteHotData| hot_data_wf(h) && #[trigger] hot_data_spec(h) == b@ ==> r is Some,
{
    let blen: usize = b.len();
    proof {
        assert forall|h: RemoteHotData| hot_data_wf(h) && #[trigger] hot_data_spec(h) == b@ implies hot_layout(b@, h) by {
            lemma_hot_layout(b@, h);
        }
    }
    if blen == 0 {
        return None;
    }
    if b[0] == 0 {
        let (snapshots, next) = decode_snapshots(b, 1)?;
        if next != b.len() {
            return None;
        }
        let h = RemoteHotData::NotEncrypted(RemoteHotEncryptedData { snapshots });
        proof {
            assert(b@ =~= seq![0u8] + b@.subrange(1, next as int));
        }
        Some(h)
    } else if b[0] == 1 {
        let (salt, end1) = read_fixed(b, 1, SALT_LEN)?;
        let (sealed, end2) = read_fixed(b, end1, KEY_LEN + 16)?;
        let (aes, end3) = read_fixed(b, end2, SALT_LEN)?;
        let (blake, end4) = read_fixed(b, end3, SALT_LEN)?;
        let (ct, end5) = decode_str(b, end4)?;
        if end5 != b.len() {
            return None;
        }
        let h = RemoteHotData::Encrypted(
            RemoteHotDataEncrypted {
                encryption_data: EncryptionData {
                    password_derived_key_salt: salt,
                    encrypted_root_key: sealed,
                    aes_256_gcm_salt: aes,
                    blake3_salt: blake,
                },
                encrypted_data: ct,
            },
        );
        proof {
            assert(b@ =~= seq![b@[0]] + b@.subrange(1, end1 as int) + b@.subrange(end1 as int, end2 as int)
                + b@.subrange(end2 as int, end3 as int) + b@.subrange(end3 as int, end4 as int) + b@.subrange(
                end4 as int,
                end5 as int,
            ));
        }
        Some(h)
    } else {
        None
    }
}

/// The sealed payload opens under content key `ck` to the given names.
pub open spec fn payload_sealed(ck: Seq<u8>, ciphertext: Seq<u8>, names: Seq<Seq<char>>) -> bool {
    gcm_seal(ck, snapshots_spec(names)) == ciphertext
}

/// The password opens the envelope, and the sealed payload is a list of
/// names sealed under the content key.
pub open spec fn hot_data_opens(e: RemoteHotDataEncrypted, pw: Seq<u8>) -> bool {
    &&& argon2_input_ok(pw, e.encryption_data.password_derived_key_salt@)
    &&& exists|k: (Seq<u8>, Seq<Seq<char>>)| opens_to(e, pw, k)
}

/// The password opens the 32-byte content key `k.0`, under which the payload
/// seals the names `k.1`.
pub open spec fn opens_to(e: RemoteHotDataEncrypted, pw: Seq<u8>, k: (Seq<u8>, Seq<Seq<char>>)) -> bool {
    &&& k.0.len() == KEY_LEN
    &&& gcm_seal(argon2_key(pw, e.encryption_data.password_derived_key_salt@), k.0)
        == e.encryption_data.encrypted_root_key@
    &&& snapshots_spec(k.1).len() <= GCM_MAX_PLAINTEXT
    &&& payload_sealed(k.0, e.encrypted_data@, k.1)
}

proof fn lemma_payload_at(plain: Seq<u8>, names: Seq<Seq<char>>)
    requires
        plain == snapshots_spec(names),
        plain.len() <= usize::MAX,
    ensures
        names_at(plain, 0, utf8_all(names)),
        plain.len() == varint_spec(names.len()).len() + strs_bytes(utf8_all(names)).len(),
{
    broadcast use vstd::utf8::encode_utf8_valid_utf8;

    let t = utf8_all(names);
    assert(plain.subrange(0, plain.len() as int) =~= plain);
    lemma_strs_len(t);
    assert forall|k: int| 0 <= k < t.len() implies vstd::utf8::valid_utf8(#[trigger] t[k]) by {
        assert(t[k] == encode_utf8(names[k]));
    }
}

impl RemoteHotData {
    /// Opens stored hot metadata with the configured password, if any. A password
    /// for clear metadata, or none for sealed metadata, is a mismatch.
    #[verifier::rlimit(40)]
    pub fn decrypt(self, password: Option<&[u8]>) -> (r: Result<
        RemoteHotDataInMemory,
        HotDataError,
    >)
        requires
            hot_data_wf(self),
        ensures
            match (self, password) {
                (RemoteHotData::NotEncrypted(d), None) => r matches Ok(m) && m.encryption is None
                    && names_view(m.data.snapshots@) == names_view(d.snapshots@),
                (RemoteHotData::NotEncrypted(_), Some(_)) => r == Err::<
                    RemoteHotDataInMemory,
                    HotDataError,
                >(HotDataError::ConfigRemoteMismatch),
                (RemoteHotData::Encrypted(_), None) => r == Err::<RemoteHotDataInMemory, HotDataError>(
                    HotDataError::ConfigRemoteMismatch,
                ),
                (RemoteHotData::Encrypted(e), Some(pw)) => {
                    &&& r matches Ok(m) ==> m.encryption == Some(e.encryption_data) && exists|
                        ck: Seq<u8>,
                    |
                        gcm_seal(argon2_key(pw@, e.encryption_data.password_derived_key_salt@), ck)
                            == e.encryption_data.encrypted_root_key@ && payload_sealed(
                            ck,
                            e.encrypted_data@,
                            names_view(m.data.snapshots@),
                        )
                    &&& r == Err::<RemoteHotDataInMemory, HotDataError>(HotDataError::PasswordMismatch)
                        <==> (argon2_input_ok(pw@, e.encryption_data.password_derived_key_salt@)
                        && !opens_with(e.encryption_data, pw@))
                    &&& hot_data_opens(e, pw@) ==> r is Ok
                    &&& argon2_input_ok(pw@, e.encryption_data.password_derived_key_salt@) ==> forall|
                        k: (Seq<u8>, Seq<Seq<char>>),
                    | #[trigger] opens_to(e, pw@, k) ==> (r matches Ok(m) && names_view(
                        m.data.snapshots@,
                    ) == k.1 && m.encryption == Some(e.encryption_data))
                },
            },
    {
        match self {
            RemoteHotData::NotEncrypted(d) => match password {
                None => Ok(RemoteHotDataInMemory { encryption: None, data: d }),
                Some(_) => Err(HotDataError::ConfigRemoteMismatch),
            },
            RemoteHotData::Encrypted(e) => match password {
                None => Err(HotDataError::ConfigRemoteMismatch),
                Some(pw) => {
                    let ghost w: Option<(Seq<u8>, Seq<Seq<char>>)> = if hot_data_opens(e, pw@) {
                        Some(
                            choose|k: (Seq<u8>, Seq<Seq<char>>)| opens_to(e, pw@, k),
                        )
                    } else {
                        None
                    };
                    let ck = match decrypt_immutable_key(pw, &e.encryption_data) {
                        Ok(ck) => ck,
                        Err(KeyError::PasswordMismatch) => {
                            return Err(HotDataError::PasswordMismatch);
                        },
                        Err(_) => {
                            return Err(HotDataError::CipherFailed);
                        },
                    };
                    let plain = match gcm_open_zero_nonce(ck.as_slice(), e.encrypted_data.as_slice()) {
                        Some(p) => p,
                        None => {
                            return Err(HotDataError::HotMetadataCorrupt);
                        },
                    };
                    let plen: usize = plain.len();
                    proof {
                        if let Some(k) = w {
                            assert(ck@ == k.0);
                            assert(plain@ == snapshots_spec(k.1));
                            lemma_payload_at(plain@, k.1);
                        }
                    }
                    let (snapshots, next) = match decode_snapshots(&plain, 0) {
                        Some(x) => x,
                        None => {
                            return Err(HotDataError::HotMetadataCorrupt);
                        },
                    };
                    if next != plen {
                        return Err(HotDataError::HotMetadataCorrupt);
                    }
                    proof {
                        assert(plain@.subrange(0, next as int) =~= plain@);
                        if argon2_input_ok(pw@, e.encryption_data.password_derived_key_salt@) {
                            assert forall|k: (Seq<u8>, Seq<Seq<char>>)| #[trigger] opens_to(e, pw@, k)
                                implies names_view(snapshots@) == k.1 by {
                                assert(ck@ == k.0);
                                assert(gcm_seal(ck@, snapshots_spec(k.1)) == e.encrypted_data@);
                                assert(plain@ == snapshots_spec(k.1));
                                lemma_payload_at(plain@, k.1);
                                assert(names_at(plain@, 0, utf8_all(k.1)));
                                lemma_utf8_all_injective(names_view(snapshots@), k.1);
                            }
                        }
                    }
                    Ok(
                        RemoteHotDataInMemory {
                            encryption: Some(e.encryption_data),
                            data: RemoteHotEncryptedData { snapshots },
                        },
                    )
                },
            },
        }
    }
}

impl RemoteHotDataInMemory {
    /// Prepares hot metadata for storage: in the clear, or with its payload sealed
    /// under the content key that the password opens.
    ///
    /// The payload is always sealed with the all-zero nonce, so each rewrite
    /// seals a new payload under the same key and nonce. No other data is
    /// sealed under the content key (streams use a key derived from it), but
    /// successive versions of this object do share the nonce; a random nonce
    /// stored beside the ciphertext would avoid that at the cost of a format
    /// change.
    #[verifier::rlimit(40)]
    pub fn encrypt(self, password: Option<&[u8]>) -> (r: Result<
        RemoteHotData,
        HotDataError,
    >)
        requires
            self.encryption matches Some(d) ==> d.wf(),
        ensures
            match (self.encryption, password) {
                (None, None) => r matches Ok(RemoteHotData::NotEncrypted(d)) && names_view(
                    d.snapshots@,
                ) == names_view(self.data.snapshots@),
                (Some(ed), Some(pw)) => {
                    &&& r matches Ok(h) ==> h matches RemoteHotData::Encrypted(e)
                        && e.encryption_data == ed && argon2_input_ok(
                        pw@,
                        ed.password_derived_key_salt@,
                    ) && exists|ck: Seq<u8>| opens_to(e, pw@, (ck, names_view(self.data.snapshots@)))
                    &&& r == Err::<RemoteHotData, HotDataError>(HotDataError::PasswordMismatch)
                        <==> (argon2_input_ok(pw@, ed.password_derived_key_salt@) && !opens_with(
                        ed,
                        pw@,
                    ))
                    &&& argon2_input_ok(pw@, ed.password_derived_key_salt@) && opens_with(ed, pw@)
                        && snapshots_spec(names_view(self.data.snapshots@)).len() <= GCM_MAX_PLAINTEXT
                        ==> r is Ok
                },
                _ => r == Err::<RemoteHotData, HotDataError>(HotDataError::ConfigRemoteMismatch),
            },
    {
        match self.encryption {
            None => match password {
                None => Ok(RemoteHotData::NotEncrypted(self.data)),
                Some(_) => Err(HotDataError::ConfigRemoteMismatch),
            },
            Some(ed) => match password {
                None => Err(HotDataError::ConfigRemoteMismatch),
                Some(pw) => {
                    let ck = match decrypt_immutable_key(pw, &ed) {
                        Ok(ck) => ck,
                        Err(KeyError::PasswordMismatch) => {
                            return Err(HotDataError::PasswordMismatch);
                        },
                        Err(_) => {
                            return Err(HotDataError::CipherFailed);
                        },
                    };
                    let plain = encode_snapshots(&self.data.snapshots);
                    if plain.len() as u64 > GCM_MAX_PLAINTEXT {
                        return Err(HotDataError::CipherFailed);
                    }
                    let ct = match gcm_seal_zero_nonce(ck.as_slice(), plain.as_slice()) {
                        Some(c) => c,
                        None => {
                            return Err(HotDataError::CipherFailed);
                        },
                    };
                    let e = RemoteHotDataEncrypted { encryption_data: ed, encrypted_data: ct };
                    proof {
                        assert(opens_to(e, pw@, (ck@, names_view(self.data.snapshots@))));
                    }
                    Ok(RemoteHotData::Encrypted(e))
                },
            },
        }
    }
}

/// Hot metadata sealed for a password opens with that password, and (by the
/// contract of `RemoteHotData::decrypt`) to exactly the names it sealed.
pub proof fn lemma_sealed_hot_data_opens(
    e: RemoteHotDataEncrypted,
    pw: Seq<u8>,
    k: (Seq<u8>, Seq<Seq<char>>),
)
    requires
        argon2_input_ok(pw, e.encryption_data.password_derived_key_salt@),
        opens_to(e, pw, k),
    ensures
        hot_data_opens(e, pw),
{
}

} // verus!
