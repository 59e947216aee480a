use vstd::prelude::*;

use crate::bytes::{append_bytes, prefix_at};
use crate::diff_entry::{
    entries_view, DiffEntry, DiffEntryView, DiffType, DiffTypeView, FileMetaData, FileType,
    Timestamp,
};
use crate::varint::{
    decode_varint, encode_varint, lemma_varint_decode_at, lemma_varint_encode_decode,
    varint_decode_spec, varint_len, varint_spec,
};

verus! {

/// A byte string: its length as a varint, then its bytes.
pub open spec fn str_spec(b: Seq<u8>) -> Seq<u8> {
    varint_spec(b.len()) + b
}

/// An optional time: a `0` byte, or a `1` byte, the seconds and the
/// nanoseconds as varints.
pub open spec fn time_spec(t: Option<Timestamp>) -> Seq<u8> {
    match t {
        None => seq![0u8],
        Some(t) => seq![1u8] + varint_spec(t.secs_since_epoch as nat) + varint_spec(
            t.nanos_since_epoch as nat,
        ),
    }
}

/// Optional file metadata: a `0` byte, or a `1` byte, the three times and the
/// length.
pub open spec fn meta_spec(m: Option<FileMetaData>) -> Seq<u8> {
    match m {
        None => seq![0u8],
        Some(m) => seq![1u8] + time_spec(m.accessed) + time_spec(m.created) + time_spec(m.modified)
            + varint_spec(m.len as nat),
    }
}

/// The tag of a kind: its variant index.
pub open spec fn kind_tag(k: FileType) -> u8 {
    match k {
        FileType::Directory => 0u8,
        FileType::RegularFile => 1u8,
    }
}

/// The change of an entry: its tag, then its payload.
pub open spec fn change_spec(d: DiffTypeView<Option<FileMetaData>>) -> Seq<u8> {
    match d {
        DiffTypeView::Removed => seq![0u8],
        DiffTypeView::Created(m) => seq![1u8] + meta_spec(m),
        DiffTypeView::Modified(m) => seq![2u8] + meta_spec(m),
        DiffTypeView::Renamed(p) => seq![3u8] + str_spec(p),
    }
}

/// The canonical record of an entry: path, kind tag and change, in this
/// order. This is the wire format that postcard gives to the same schema.
pub open spec fn record_spec(e: DiffEntryView<Option<FileMetaData>>) -> Seq<u8> {
    str_spec(e.path) + seq![kind_tag(e.file_type)] + change_spec(e.diff_type)
}

/// Length of the file body that follows an entry's record in the stream.
pub open spec fn body_len(e: DiffEntryView<Option<FileMetaData>>) -> nat {
    match e.diff_type.content() {
        Some(Some(m)) => m.len as nat,
        _ => 0,
    }
}

/// The record of an entry with its length prefix.
pub open spec fn head_spec(e: DiffEntryView<Option<FileMetaData>>) -> Seq<u8> {
    varint_spec(record_spec(e).len()) + record_spec(e)
}

/// Bytes that an entry takes in the stream.
pub open spec fn entry_size(e: DiffEntryView<Option<FileMetaData>>) -> nat {
    head_spec(e).len() + body_len(e)
}

/// Bytes of the whole stream of a change-set.
pub open spec fn stream_size(s: Seq<DiffEntryView<Option<FileMetaData>>>) -> nat
    decreases s.len(),
{
    if s.len() == 0 {
        0
    } else {
        stream_size(s.drop_last()) + entry_size(s.last())
    }
}

fn encode_time(out: &mut Vec<u8>, t: &Option<Timestamp>)
    ensures
        final(out)@ == old(out)@ + time_spec(*t),
{
    match t {
        None => {
            out.push(0);
            proof {
                assert(out@ =~= old(out)@ + time_spec(*t));
            }
        },
        Some(t) => {
            out.push(1);
            let a = encode_varint(t.secs_since_epoch);
            append_bytes(out, a.as_slice());
            let b = encode_varint(t.nanos_since_epoch as u64);
            append_bytes(out, b.as_slice());
            proof {
                assert(out@ =~= old(out)@ + time_spec(Some(*t)));
            }
        },
    }
}

fn encode_meta(out: &mut Vec<u8>, m: &Option<FileMetaData>)
    ensures
        final(out)@ == old(out)@ + meta_spec(*m),
{
    match m {
        None => {
            out.push(0);
            proof {
                assert(out@ =~= old(out)@ + meta_spec(*m));
            }
        },
        Some(m) => {
            out.push(1);
            encode_time(out, &m.accessed);
            encode_time(out, &m.created);
            encode_time(out, &m.modified);
            let l = encode_varint(m.len);
            append_bytes(out, l.as_slice());
            proof {
                assert(out@ =~= old(out)@ + meta_spec(Some(*m)));
            }
        },
    }
}

fn encode_str(out: &mut Vec<u8>, b: &[u8])
    ensures
        final(out)@ == old(out)@ + str_spec(b@),
{
    let l = encode_varint(b.len() as u64);
    append_bytes(out, l.as_slice());
    append_bytes(out, b);
    proof {
        assert(out@ =~= old(out)@ + str_spec(b@));
    }
}

/// The canonical record of an entry.
pub fn encode_record(e: &DiffEntry<Option<FileMetaData>>) -> (r: Vec<u8>)
    ensures
        r@ == record_spec(e@),
{
    let mut out: Vec<u8> = Vec::new();
    encode_str(&mut out, e.path.as_slice());
    let ghost p = out@;
    match e.file_type {
        FileType::Directory => out.push(0),
        FileType::RegularFile => out.push(1),
    }
    let ghost q = out@;
    match &e.diff_type {
        DiffType::Removed => out.push(0),
        DiffType::Created(m) => {
            out.push(1);
            encode_meta(&mut out, m);
        },
        DiffType::Modified(m) => {
            out.push(2);
            encode_meta(&mut out, m);
        },
        DiffType::Renamed(p) => {
            out.push(3);
            encode_str(&mut out, p.as_slice());
        },
    }
    proof {
        assert(q =~= str_spec(e.path@) + seq![kind_tag(e.file_type)]);
        assert(out@ =~= record_spec(e@));
    }
    out
}

/// Length of the body that follows the record of `e`.
pub fn entry_body_len(e: &DiffEntry<Option<FileMetaData>>) -> (r: u64)
    ensures
        r == body_len(e@),
{
    match e.diff_type.content_data() {
        Some(Some(m)) => m.len,
        _ => 0,
    }
}

pub proof fn lemma_stream_size_push(s: Seq<DiffEntryView<Option<FileMetaData>>>, e: DiffEntryView<
    Option<FileMetaData>,
>)
    ensures
        stream_size(s.push(e)) == stream_size(s) + entry_size(e),
{
    assert(s.push(e).drop_last() =~= s);
}

/// Bytes of the whole stream of `diff`, or `None` where that does not fit in
/// 64 bits.
pub fn snapshot_stream_size(diff: &Vec<DiffEntry<Option<FileMetaData>>>) -> (r: Option<u64>)
    ensures
        match r {
            Some(n) => n == stream_size(entries_view(diff@)),
            None => stream_size(entries_view(diff@)) > u64::MAX,
        },
{
    let ghost s = entries_view(diff@);
    let mut total: u64 = 0;
    let mut i: usize = 0;
    proof {
        assert(s.take(0) =~= Seq::<DiffEntryView<Option<FileMetaData>>>::empty());
    }
    while i < diff.len()
        invariant
            s == entries_view(diff@),
            i <= diff@.len(),
            total == stream_size(s.take(i as int)),
        decreases diff@.len() - i,
    {
        let e = &diff[i];
        let rec = encode_record(e);
        let rl = rec.len() as u64;
        let vl = varint_len(rl);
        let bl = entry_body_len(e);
        proof {
            assert(s.take(i + 1) =~= s.take(i as int).push(s[i as int]));
            lemma_stream_size_push(s.take(i as int), s[i as int]);
            assert(entry_size(s[i as int]) == vl + rl + bl);
        }
        if rl > u64::MAX - vl || bl > u64::MAX - vl - rl || total > u64::MAX - vl - rl - bl {
            proof {
                lemma_stream_size_prefix(s, i + 1);
            }
            return None;
        }
        total = total + vl + rl + bl;
        i += 1;
    }
    proof {
        assert(s.take(i as int) =~= s);
    }
    Some(total)
}

/// The stream of a prefix is no longer than the whole stream.
pub proof fn lemma_stream_size_prefix(s: Seq<DiffEntryView<Option<FileMetaData>>>, k: int)
    requires
        0 <= k <= s.len(),
    ensures
        stream_size(s.take(k)) <= stream_size(s),
    decreases s.len() - k,
{
    if k < s.len() {
        lemma_stream_size_prefix(s, k + 1);
        assert(s.take(k + 1) =~= s.take(k).push(s[k]));
        lemma_stream_size_push(s.take(k), s[k]);
    } else {
        assert(s.take(k) =~= s);
    }
}

/// Reads a length-prefixed byte string at `pos`: the bytes and the position
/// after them.
#[verifier::rlimit(40)]
pub(crate) fn decode_str(b: &Vec<u8>, pos: usize) -> (r: Option<(Vec<u8>, usize)>)
    requires
        pos <= b@.len(),
    ensures
        r matches Some((s, next)) ==> pos <= next <= b@.len() && b@.subrange(pos as int, next as int)
            == str_spec(s@),
        forall|s: Seq<u8>|
            #[trigger] prefix_at(b@, pos as int, str_spec(s)) ==> (r matches Some((v, next)) && v@
                == s && next == pos + str_spec(s).len()),
{
    let dv = decode_varint(b, pos);
    proof {
        assert forall|s: Seq<u8>| #[trigger] prefix_at(b@, pos as int, str_spec(s)) implies {
            &&& varint_decode_spec(b@.skip(pos as int)) == Some((s.len(), varint_spec(s.len()).len()))
            &&& prefix_at(b@, pos + varint_spec(s.len()).len(), s)
        } by {
            let l = varint_spec(s.len()).len() as int;
            assert(b@.subrange(pos as int, pos + l) =~= str_spec(s).subrange(0, l));
            assert(str_spec(s).subrange(0, l) =~= varint_spec(s.len()));
            assert(str_spec(s).subrange(l, l + s.len()) =~= s);
            lemma_varint_decode_at(b@, pos as int, s.len());
            assert(b@.subrange(pos + l, pos + l + s.len()) =~= str_spec(s).subrange(l, l + s.len()));
        }
    }
    match dv {
        None => None,
        Some((n, p)) => {
            proof {
                lemma_varint_encode_decode(b@.skip(pos as int));
            }
            if n > (b.len() - p) as u64 {
                return None;
            }
            let end: usize = p + n as usize;
            let mut out: Vec<u8> = Vec::new();
            let mut i: usize = p;
            while i < end
                invariant
                    p <= i <= end <= b@.len(),
                    out@ == b@.subrange(p as int, i as int),
                decreases end - i,
            {
                out.push(b[i]);
                i += 1;
                proof {
                    assert(out@ =~= b@.subrange(p as int, i as int));
                }
            }
            proof {
                let (v, k) = varint_decode_spec(b@.skip(pos as int))->0;
                assert(b@.skip(pos as int).take(k as int) =~= b@.subrange(pos as int, p as int));
                assert(b@.subrange(pos as int, end as int) =~= b@.subrange(pos as int, p as int)
                    + out@);
            }
            Some((out, end))
        },
    }
}

fn decode_u64(b: &Vec<u8>, pos: usize) -> (r: Option<(u64, usize)>)
    requires
        pos <= b@.len(),
    ensures
        r matches Some((v, next)) ==> pos <= next <= b@.len() && b@.subrange(pos as int, next as int)
            == varint_spec(v as nat),
        forall|n: nat|
            n < 0x1_0000_0000_0000_0000 && #[trigger] prefix_at(b@, pos as int, varint_spec(n)) ==> r
                == Some((n as u64, (pos + varint_spec(n).len()) as usize)),
{
    proof {
        assert forall|n: nat|
            n < 0x1_0000_0000_0000_0000 && #[trigger] prefix_at(b@, pos as int, varint_spec(n))
            implies varint_decode_spec(b@.skip(pos as int)) == Some((n, varint_spec(n).len())) by {
            lemma_varint_decode_at(b@, pos as int, n);
        }
    }
    match decode_varint(b, pos) {
        None => None,
        Some((v, next)) => {
            proof {
                lemma_varint_encode_decode(b@.skip(pos as int));
                let (w, k) = varint_decode_spec(b@.skip(pos as int))->0;
                assert(b@.skip(pos as int).take(k as int) =~= b@.subrange(pos as int, next as int));
            }
            Some((v, next))
        },
    }
}

/// Where the parts of the time `t` stand in `b` from `pos` on.
spec fn time_layout(b: Seq<u8>, pos: int, t: Option<Timestamp>) -> bool {
    &&& b[pos] == (if t is Some { 1u8 } else { 0u8 })
    &&& t matches Some(x) ==> {
        let a = varint_spec(x.secs_since_epoch as nat);
        &&& prefix_at(b, pos + 1, a)
        &&& prefix_at(b, pos + 1 + a.len(), varint_spec(x.nanos_since_epoch as nat))
    }
}

proof fn lemma_time_layout(b: Seq<u8>, pos: int, t: Option<Timestamp>)
    requires
        prefix_at(b, pos, time_spec(t)),
    ensures
        time_layout(b, pos, t),
{
    let ts = time_spec(t);
    assert(b[pos] == b.subrange(pos, pos + ts.len())[0]);
    if let Some(x) = t {
        let a = varint_spec(x.secs_since_epoch as nat);
        let c = varint_spec(x.nanos_since_epoch as nat);
        let la = a.len() as int;
        let lc = c.len() as int;
        assert(b.subrange(pos + 1, pos + 1 + la) =~= ts.subrange(1, 1 + la));
        assert(b.subrange(pos + 1 + la, pos + 1 + la + lc) =~= ts.subrange(1 + la, 1 + la + lc));
        assert(ts.subrange(1, 1 + la) =~= a);
        assert(ts.subrange(1 + la, 1 + la + lc) =~= c);
    }
}

/// Where the parts of the metadata `m` stand in `b` from `pos` on.
spec fn meta_layout(b: Seq<u8>, pos: int, m: Option<FileMetaData>) -> bool {
    &&& b[pos] == (if m is Some { 1u8 } else { 0u8 })
    &&& m matches Some(x) ==> {
        let t1 = time_spec(x.accessed);
        let t2 = time_spec(x.created);
        let t3 = time_spec(x.modified);
        &&& prefix_at(b, pos + 1, t1)
        &&& prefix_at(b, pos + 1 + t1.len(), t2)
        &&& prefix_at(b, pos + 1 + t1.len() + t2.len(), t3)
        &&& prefix_at(b, pos + 1 + t1.len() + t2.len() + t3.len(), varint_spec(x.len as nat))
    }
}

proof fn lemma_meta_layout(b: Seq<u8>, pos: int, m: Option<FileMetaData>)
    requires
        prefix_at(b, pos, meta_spec(m)),
    ensures
        meta_layout(b, pos, m),
{
    let ms = meta_spec(m);
    assert(b[pos] == b.subrange(pos, pos + ms.len())[0]);
    if let Some(x) = m {
        let t1 = time_spec(x.accessed);
        let t2 = time_spec(x.created);
        let t3 = time_spec(x.modified);
        let l = varint_spec(x.len as nat);
        let o1 = 1 + t1.len() as int;
        let o2 = o1 + t2.len() as int;
        let o3 = o2 + t3.len() as int;
        let ll = l.len() as int;
        assert(b.subrange(pos + 1, pos + o1) =~= ms.subrange(1, o1));
        assert(b.subrange(pos + o1, pos + o2) =~= ms.subrange(o1, o2));
        assert(b.subrange(pos + o2, pos + o3) =~= ms.subrange(o2, o3));
        assert(b.subrange(pos + o3, pos + o3 + ll) =~= ms.subrange(o3, o3 + ll));
        assert(ms.subrange(1, o1) =~= t1);
        assert(ms.subrange(o1, o2) =~= t2);
        assert(ms.subrange(o2, o3) =~= t3);
        assert(ms.subrange(o3, o3 + ll) =~= l);
    }
}

#[verifier::rlimit(40)]
fn decode_time(b: &Vec<u8>, pos: usize) -> (r: Option<(Option<Timestamp>, usize)>)
    requires
        pos <= b@.len(),
    ensures
        r matches Some((t, next)) ==> pos <= next <= b@.len() && b@.subrange(pos as int, next as int)
            == time_spec(t),
        forall|t: Option<Timestamp>|
            #[trigger] prefix_at(b@, pos as int, time_spec(t)) ==> r == Some(
                (t, (pos + time_spec(t).len()) as usize),
            ),
{
    proof {
        assert forall|t: Option<Timestamp>| #[trigger] prefix_at(b@, pos as int, time_spec(t))
            implies time_layout(b@, pos as int, t) by {
            lemma_time_layout(b@, pos as int, t);
        }
    }
    if pos >= b.len() {
        return None;
    }
    if b[pos] == 0 {
        proof {
            assert(b@.subrange(pos as int, pos + 1) =~= seq![0u8]);
        }
        return Some((None, pos + 1));
    }
    if b[pos] != 1 {
        return None;
    }
    let (secs, end1) = decode_u64(b, pos + 1)?;
    let (nanos, end2) = decode_u64(b, end1)?;
    if nanos > u32::MAX as u64 {
        return None;
    }
    let t = Timestamp { secs_since_epoch: secs, nanos_since_epoch: nanos as u32 };
    proof {
        assert(b@.subrange(pos as int, end2 as int) =~= seq![1u8] + b@.subrange(pos + 1, end1 as int)
            + b@.subrange(end1 as int, end2 as int));
    }
    Some((Some(t), end2))
}

#[verifier::rlimit(40)]
fn decode_meta(b: &Vec<u8>, pos: usize) -> (r: Option<(Option<FileMetaData>, usize)>)
    requires
        pos <= b@.len(),
    ensures
        r matches Some((m, next)) ==> pos <= next <= b@.len() && b@.subrange(pos as int, next as int)
            == meta_spec(m),
        forall|m: Option<FileMetaData>|
            #[trigger] prefix_at(b@, pos as int, meta_spec(m)) ==> r == Some(
                (m, (pos + meta_spec(m).len()) as usize),
            ),
{
    proof {
        assert forall|m: Option<FileMetaData>| #[trigger] prefix_at(b@, pos as int, meta_spec(m))
            implies meta_layout(b@, pos as int, m) by {
            lemma_meta_layout(b@, pos as int, m);
        }
    }
    if pos >= b.len() {
        return None;
    }
    if b[pos] == 0 {
        proof {
            assert(b@.subrange(pos as int, pos + 1) =~= seq![0u8]);
        }
        return Some((None, pos + 1));
    }
    if b[pos] != 1 {
        return None;
    }
    let (accessed, end1) = decode_time(b, pos + 1)?;
    let (created, end2) = decode_time(b, end1)?;
    let (modified, end3) = decode_time(b, end2)?;
    let (len, end4) = decode_u64(b, end3)?;
    let m = FileMetaData { accessed, created, modified, len };
    proof {
        assert(b@.subrange(pos as int, end4 as int) =~= seq![1u8] + b@.subrange(pos + 1, end1 as int)
            + b@.subrange(end1 as int, end2 as int) + b@.subrange(end2 as int, end3 as int) + b@.subrange(
            end3 as int,
            end4 as int,
        ));
    }
    Some((Some(m), end4))
}

/// Where the parts of the change `d` stand in `b` from `pos` on.
spec fn change_layout(b: Seq<u8>, pos: int, d: DiffTypeView<Option<FileMetaData>>) -> bool {
    &&& b[pos] == change_spec(d)[0]
    &&& match d {
        DiffTypeView::Created(m) => prefix_at(b, pos + 1, meta_spec(m)),
        DiffTypeView::Modified(m) => prefix_at(b, pos + 1, meta_spec(m)),
        DiffTypeView::Renamed(t) => prefix_at(b, pos + 1, str_spec(t)),
        DiffTypeView::Removed => true,
    }
}

proof fn lemma_change_layout(b: Seq<u8>, pos: int, d: DiffTypeView<Option<FileMetaData>>)
    requires
        prefix_at(b, pos, change_spec(d)),
    ensures
        change_layout(b, pos, d),
{
    let c = change_spec(d);
    assert(b[pos] == b.subrange(pos, pos + c.len())[0]);
    assert(b.subrange(pos + 1, pos + c.len()) =~= c.subrange(1, c.len() as int));
    match d {
        DiffTypeView::Created(m) => {
            assert(c.subrange(1, c.len() as int) =~= meta_spec(m));
        },
        DiffTypeView::Modified(m) => {
            assert(c.subrange(1, c.len() as int) =~= meta_spec(m));
        },
        DiffTypeView::Renamed(t) => {
            assert(c.subrange(1, c.len() as int) =~= str_spec(t));
        },
        DiffTypeView::Removed => {},
    }
}

#[verifier::rlimit(40)]
fn decode_change(b: &Vec<u8>, pos: usize) -> (r: Option<(DiffType<Option<FileMetaData>>, usize)>)
    requires
        pos <= b@.len(),
    ensures
        r matches Some((d, next)) ==> pos <= next <= b@.len() && b@.subrange(pos as int, next as int)
            == change_spec(d@),
        forall|d: DiffTypeView<Option<FileMetaData>>|
            #[trigger] prefix_at(b@, pos as int, change_spec(d)) ==> (r matches Some((x, next))
                && x@ == d && next == pos + change_spec(d).len()),
{
    proof {
        assert forall|d: DiffTypeView<Option<FileMetaData>>| #[trigger] prefix_at(b@, pos as int, change_spec(d))
            implies change_layout(b@, pos as int, d) by {
            lemma_change_layout(b@, pos as int, d);
        }
    }
    if pos >= b.len() {
        return None;
    }
    let tag = b[pos];
    if tag == 0 {
        proof {
            assert(b@.subrange(pos as int, pos + 1) =~= seq![0u8]);
        }
        Some((DiffType::Removed, pos + 1))
    } else if tag == 1 || tag == 2 {
        let (m, next) = decode_meta(b, pos + 1)?;
        proof {
            assert(b@.subrange(pos as int, next as int) =~= seq![tag] + b@.subrange(pos + 1, next as int));
        }
        if tag == 1 {
            Some((DiffType::Created(m), next))
        } else {
            Some((DiffType::Modified(m), next))
        }
    } else if tag == 3 {
        let (to, next) = decode_str(b, pos + 1)?;
        proof {
            assert(b@.subrange(pos as int, next as int) =~= seq![3u8] + b@.subrange(pos + 1, next as int));
        }
        Some((DiffType::Renamed(to), next))
    } else {
        None
    }
}

/// Parses a whole record: exactly the records' bytes parse, each back to its
/// entry.
#[verifier::rlimit(40)]
pub fn decode_record(b: &Vec<u8>) -> (r: Option<DiffEntry<Option<FileMetaData>>>)
    ensures
        r matches Some(e) ==> record_spec(e@) == b@,
        forall|e: DiffEntryView<Option<FileMetaData>>|
            #[trigger] record_spec(e) == b@ ==> (r matches Some(d) && d@ == e),
{
    proof {
        assert forall|e: DiffEntryView<Option<FileMetaData>>| #[trigger] record_spec(e) == b@ implies {
            let end1 = str_spec(e.path).len() as int;
            &&& prefix_at(b@, 0, str_spec(e.path))
            &&& b@.len() > end1
            &&& b@[end1] == kind_tag(e.file_type)
            &&& prefix_at(b@, end1 + 1, change_spec(e.diff_type))
            &&& b@.len() == end1 + 1 + change_spec(e.diff_type).len()
        } by {
            let r = record_spec(e);
            let end1 = str_spec(e.path).len() as int;
            assert(r.subrange(0, end1) =~= str_spec(e.path));
            assert(r.subrange(end1 + 1, r.len() as int) =~= change_spec(e.diff_type));
        }
    }
    let (path, end1) = decode_str(b, 0)?;
    if end1 >= b.len() {
        return None;
    }
    let file_type = if b[end1] == 0 {
        FileType::Directory
    } else if b[end1] == 1 {
        FileType::RegularFile
    } else {
        return None;
    };
    let (diff_type, end2) = decode_change(b, end1 + 1)?;
    if end2 != b.len() {
        return None;
    }
    let e = DiffEntry { path, file_type, diff_type };
    proof {
        assert(b@ =~= b@.subrange(0, end1 as int) + seq![b@[end1 as int]] + b@.subrange(end1 + 1, end2 as int));
        assert(seq![b@[end1 as int]] == seq![kind_tag(e.file_type)]);
        assert(b@ =~= record_spec(e@));
    }
    Some(e)
}

} // verus!
