use vstd::prelude::*;

use crate::bytes::{append_bytes, copy_from};
use crate::diff_entry::{entries_view, DiffEntry, DiffEntryView, FileMetaData};
use crate::record::{
    body_len, encode_record, entry_body_len, head_spec, lemma_stream_size_push, stream_size,
};
use crate::varint::encode_varint;

verus! {

/// A piece of the upload stream: bytes held in memory, or a byte range of the
/// body of the entry with the given index.
#[derive(Debug, Clone, PartialEq, Eq)]
pub enum StreamPiece {
    Bytes(Vec<u8>),
    FileRange { entry: usize, offset: u64, len: u64 },
}

/// The bytes of a piece, given the bodies of all entries.
pub open spec fn piece_bytes(p: StreamPiece, bodies: Seq<Seq<u8>>) -> Seq<u8> {
    match p {
        StreamPiece::Bytes(b) => b@,
        StreamPiece::FileRange { entry, offset, len } => bodies[entry as int].subrange(
            offset as int,
            offset + len,
        ),
    }
}

/// The bytes of a sequence of pieces, in order.
pub open spec fn expand(ps: Seq<StreamPiece>, bodies: Seq<Seq<u8>>) -> Seq<u8>
    decreases ps.len(),
{
    if ps.len() == 0 {
        Seq::empty()
    } else {
        expand(ps.drop_last(), bodies) + piece_bytes(ps.last(), bodies)
    }
}

/// `bodies` holds for each entry a body of the length its metadata gives.
pub open spec fn bodies_fit(s: Seq<DiffEntryView<Option<FileMetaData>>>, bodies: Seq<Seq<u8>>) -> bool {
    bodies.len() == s.len() && forall|i: int| 0 <= i < s.len() ==> (#[trigger] bodies[i]).len()
        == body_len(s[i])
}

/// The whole upload stream of a change-set: for each entry its length-prefixed
/// record and then its body. Entry `i` of `s` has body `bodies[i]`.
pub open spec fn full_stream(s: Seq<DiffEntryView<Option<FileMetaData>>>, bodies: Seq<Seq<u8>>) -> Seq<u8>
    decreases s.len(),
{
    if s.len() == 0 {
        Seq::empty()
    } else {
        full_stream(s.drop_last(), bodies) + head_spec(s.last()) + bodies[s.len() - 1]
    }
}

/// The stream from byte `skip` on; empty past its end.
pub open spec fn stream_from(s: Seq<DiffEntryView<Option<FileMetaData>>>, bodies: Seq<Seq<u8>>, skip: nat) -> Seq<u8> {
    let f = full_stream(s, bodies);
    if skip <= f.len() {
        f.skip(skip as int)
    } else {
        Seq::empty()
    }
}

/// Every file range of `ps` lies inside the body of its entry.
pub open spec fn pieces_in_bounds(ps: Seq<StreamPiece>, s: Seq<DiffEntryView<Option<FileMetaData>>>) -> bool {
    forall|k: int|
        0 <= k < ps.len() ==> match #[trigger] ps[k] {
            StreamPiece::Bytes(_) => true,
            StreamPiece::FileRange { entry, offset, len } => entry < s.len() && offset + len
                <= body_len(s[entry as int]) && len > 0,
        }
}

pub proof fn lemma_full_stream_len(s: Seq<DiffEntryView<Option<FileMetaData>>>, bodies: Seq<Seq<u8>>, n: int)
    requires
        0 <= n <= s.len(),
        bodies_fit(s, bodies),
    ensures
        full_stream(s.take(n), bodies).len() == stream_size(s.take(n)),
    decreases n,
{
    if n > 0 {
        lemma_full_stream_len(s, bodies, n - 1);
        assert(s.take(n).drop_last() =~= s.take(n - 1));
    }
}

proof fn lemma_expand_push(ps: Seq<StreamPiece>, p: StreamPiece, bodies: Seq<Seq<u8>>)
    ensures
        expand(ps.push(p), bodies) == expand(ps, bodies) + piece_bytes(p, bodies),
{
    assert(ps.push(p).drop_last() =~= ps);
}

/// The upload stream of `diff` from byte `skip_bytes` on, as pieces: records
/// are held in memory, file bodies are named by entry index and byte range.
#[verifier::rlimit(60)]
pub fn snapshot_upload_stream(diff: &Vec<DiffEntry<Option<FileMetaData>>>, skip_bytes: u64) -> (r:
    Vec<StreamPiece>)
    ensures
        pieces_in_bounds(r@, entries_view(diff@)),
        forall|bodies: Seq<Seq<u8>>|
            bodies_fit(entries_view(diff@), bodies) ==> expand(r@, bodies) == stream_from(
                entries_view(diff@),
                bodies,
                skip_bytes as nat,
            ),
{
    let ghost s = entries_view(diff@);
    let mut out: Vec<StreamPiece> = Vec::new();
    let mut rem: u64 = skip_bytes;
    let mut i: usize = 0;
    proof {
        assert(s.take(0) =~= Seq::<DiffEntryView<Option<FileMetaData>>>::empty());
        assert forall|bodies: Seq<Seq<u8>>| bodies_fit(s, bodies) implies expand(out@, bodies)
            == full_stream(s.take(0), bodies).skip(0) by {
            assert(full_stream(s.take(0), bodies).skip(0) =~= Seq::<u8>::empty());
        }
    }
    while i < diff.len()
        invariant
            s == entries_view(diff@),
            i <= diff@.len(),
            rem > 0 ==> skip_bytes == stream_size(s.take(i as int)) + rem,
            rem == 0 ==> skip_bytes <= stream_size(s.take(i as int)),
            pieces_in_bounds(out@, s),
            forall|bodies: Seq<Seq<u8>>|
                bodies_fit(s, bodies) ==> expand(out@, bodies) == full_stream(
                    s.take(i as int),
                    bodies,
                ).skip(skip_bytes - rem),
        decreases diff@.len() - i,
    {
        let e = &diff[i];
        let rec = encode_record(e);
        let mut head = encode_varint(rec.len() as u64);
        append_bytes(&mut head, rec.as_slice());
        let hl = head.len() as u64;
        let bl = entry_body_len(e);
        let ghost before = out@;
        let ghost rem0 = rem;
        let ghost t = s.take(i as int);
        proof {
            assert(head@ == head_spec(s[i as int]));
            assert(s.take(i + 1) =~= t.push(s[i as int]));
            assert(s.take(i + 1).drop_last() =~= t);
            lemma_stream_size_push(t, s[i as int]);
        }
        if rem >= hl && rem - hl >= bl {
            rem = rem - hl - bl;
            proof {
                assert forall|bodies: Seq<Seq<u8>>| bodies_fit(s, bodies) implies expand(
                    out@,
                    bodies,
                ) == full_stream(s.take(i + 1), bodies).skip(skip_bytes - rem) by {
                    lemma_full_stream_len(s, bodies, i as int);
                    lemma_full_stream_len(s, bodies, i + 1);
                    assert(bodies[i as int].len() == body_len(s[i as int]));
                    assert(full_stream(t, bodies).skip(skip_bytes - rem0) =~= Seq::<u8>::empty());
                    assert(full_stream(s.take(i + 1), bodies).skip(skip_bytes - rem) =~= Seq::<
                        u8,
                    >::empty());
                }
            }
        } else if rem >= hl {
            let off = rem - hl;
            out.push(StreamPiece::FileRange { entry: i, offset: off, len: bl - off });
            rem = 0;
            proof {
                assert forall|bodies: Seq<Seq<u8>>| bodies_fit(s, bodies) implies expand(
                    out@,
                    bodies,
                ) == full_stream(s.take(i + 1), bodies).skip(skip_bytes - rem) by {
                    lemma_expand_push(before, out@.last(), bodies);
                    lemma_full_stream_len(s, bodies, i as int);
                    assert(bodies[i as int].len() == body_len(s[i as int]));
                    assert(full_stream(t, bodies).skip(skip_bytes - rem0) =~= Seq::<u8>::empty());
                    assert(full_stream(s.take(i + 1), bodies).skip(skip_bytes - rem) =~= bodies[i as int].subrange(off as int, off + bl - off));
                }
                assert forall|k: int| 0 <= k < out@.len() implies match #[trigger] out@[k] {
                    StreamPiece::Bytes(_) => true,
                    StreamPiece::FileRange { entry, offset, len } => entry < s.len() && offset
                        + len <= body_len(s[entry as int]) && len > 0,
                } by {
                    if k < before.len() {
                        assert(out@[k] == before[k]);
                    }
                }
            }
        } else {
            let start: usize = rem as usize;
            let part = copy_from(head.as_slice(), start);
            out.push(StreamPiece::Bytes(part));
            let ghost mid = out@;
            if bl > 0 {
                out.push(StreamPiece::FileRange { entry: i, offset: 0, len: bl });
            }
            rem = 0;
            proof {
                assert forall|bodies: Seq<Seq<u8>>| bodies_fit(s, bodies) implies expand(
                    out@,
                    bodies,
                ) == full_stream(s.take(i + 1), bodies).skip(skip_bytes - rem) by {
                    lemma_expand_push(before, mid.last(), bodies);
                    lemma_full_stream_len(s, bodies, i as int);
                    assert(bodies[i as int].len() == body_len(s[i as int]));
                    let f = full_stream(t, bodies);
                    if bl > 0 {
                        lemma_expand_push(mid, out@.last(), bodies);
                        assert(bodies[i as int].subrange(0, 0 + bl) =~= bodies[i as int]);
                    } else {
                        assert(bodies[i as int] =~= Seq::<u8>::empty());
                    }
                    if rem0 > 0 {
                        assert(f.skip(skip_bytes - rem0) =~= Seq::<u8>::empty());
                        assert(full_stream(s.take(i + 1), bodies).skip(skip_bytes as int) =~= head@.skip(
                            rem0 as int,
                        ) + bodies[i as int]);
                    } else {
                        assert(full_stream(s.take(i + 1), bodies).skip(skip_bytes as int) =~= f.skip(
                            skip_bytes as int,
                        ) + head@ + bodies[i as int]);
                        assert(head@.skip(0) =~= head@);
                    }
                }
                assert forall|k: int| 0 <= k < out@.len() implies match #[trigger] out@[k] {
                    StreamPiece::Bytes(_) => true,
                    StreamPiece::FileRange { entry, offset, len } => entry < s.len() && offset
                        + len <= body_len(s[entry as int]) && len > 0,
                } by {
                    if k < before.len() {
                        assert(out@[k] == before[k]);
                    } else if k == before.len() {
                        assert(out@[k] == mid.last());
                    }
                }
            }
        }
        i += 1;
    }
    proof {
        assert(s.take(i as int) =~= s);
        assert forall|bodies: Seq<Seq<u8>>| bodies_fit(s, bodies) implies expand(out@, bodies)
            == stream_from(s, bodies, skip_bytes as nat) by {
            lemma_full_stream_len(s, bodies, s.len() as int);
            if rem > 0 {
                assert(full_stream(s, bodies).skip(skip_bytes - rem) =~= Seq::<u8>::empty());
            }
        }
    }
    out
}

/// Starting the stream at byte `k` gives what starting it at byte 0 gives,
/// without its first `k` bytes.
pub proof fn lemma_skip_is_suffix(s: Seq<DiffEntryView<Option<FileMetaData>>>, bodies: Seq<Seq<u8>>, k: nat)
    requires
        bodies_fit(s, bodies),
        k <= stream_size(s),
    ensures
        stream_from(s, bodies, k) == stream_from(s, bodies, 0).skip(k as int),
{
    lemma_full_stream_len(s, bodies, s.len() as int);
    assert(s.take(s.len() as int) =~= s);
    assert(full_stream(s, bodies).skip(0) =~= full_stream(s, bodies));
}

} // verus!
