use vstd::prelude::*;

use crate::diff_entry::{entries_view, DiffEntry, DiffEntryView, DiffType, DiffTypeView, FileType};
use crate::zfs_diff::SLASH;

verus! {

/// Byte-wise lexicographic order of paths.
pub open spec fn path_le(a: Seq<u8>, b: Seq<u8>) -> bool
    decreases a.len(),
{
    if a.len() == 0 {
        true
    } else if b.len() == 0 {
        false
    } else if a[0] != b[0] {
        a[0] < b[0]
    } else {
        path_le(a.drop_first(), b.drop_first())
    }
}

pub proof fn lemma_path_le_total(a: Seq<u8>, b: Seq<u8>)
    ensures
        path_le(a, b) || path_le(b, a),
    decreases a.len(),
{
    if a.len() > 0 && b.len() > 0 && a[0] == b[0] {
        lemma_path_le_total(a.drop_first(), b.drop_first());
    }
}

pub proof fn lemma_path_le_trans(a: Seq<u8>, b: Seq<u8>, c: Seq<u8>)
    requires
        path_le(a, b),
        path_le(b, c),
    ensures
        path_le(a, c),
    decreases a.len(),
{
    if a.len() > 0 && b.len() > 0 && c.len() > 0 && a[0] == b[0] && b[0] == c[0] {
        lemma_path_le_trans(a.drop_first(), b.drop_first(), c.drop_first());
    }
}

/// The entries are in ascending order of path.
pub open spec fn sorted_by_path<T>(s: Seq<DiffEntryView<T>>) -> bool {
    forall|i: int, j: int| 0 <= i < j < s.len() ==> path_le(#[trigger] s[i].path, #[trigger] s[j].path)
}

/// Where `x` goes in `r`: before the first entry whose path is not below its own.
pub open spec fn insert_pos<T>(r: Seq<DiffEntryView<T>>, x: DiffEntryView<T>) -> nat
    decreases r.len(),
{
    if r.len() == 0 {
        0
    } else if path_le(x.path, r[0].path) {
        0
    } else {
        1 + insert_pos(r.drop_first(), x)
    }
}

/// Stable insertion sort by path: entries with equal paths keep their order.
pub open spec fn sort_by_path<T>(s: Seq<DiffEntryView<T>>) -> Seq<DiffEntryView<T>>
    decreases s.len(),
{
    if s.len() == 0 {
        s
    } else {
        let r = sort_by_path(s.drop_first());
        r.insert(insert_pos(r, s[0]) as int, s[0])
    }
}

/// `p` lies inside the directory `d`: it continues `d` with a separator.
pub open spec fn is_descendant(d: Seq<u8>, p: Seq<u8>) -> bool {
    p.len() > d.len() && p.take(d.len() as int) == d && p[d.len() as int] == SLASH
}

/// `s` lists a removed directory that `p` lies inside.
pub open spec fn under_removed_dir<T>(s: Seq<DiffEntryView<T>>, p: Seq<u8>) -> bool {
    exists|k: int|
        0 <= k < s.len() && (#[trigger] s[k]).file_type == FileType::Directory
            && s[k].diff_type is Removed && is_descendant(s[k].path, p)
}

/// Whether the optimizer keeps `e` of the list `s`: a modified directory goes,
/// a created directory goes when something inside it is listed, and a removed
/// file or directory goes when it lies inside a directory listed as removed.
pub open spec fn keep_entry<T>(s: Seq<DiffEntryView<T>>, e: DiffEntryView<T>) -> bool {
    match e.diff_type {
        DiffTypeView::Removed => !under_removed_dir(s, e.path),
        DiffTypeView::Modified(_) => e.file_type != FileType::Directory,
        DiffTypeView::Created(_) => !(e.file_type == FileType::Directory && exists|k: int|
            0 <= k < s.len() && is_descendant(e.path, #[trigger] s[k].path)),
        DiffTypeView::Renamed(_) => true,
    }
}

/// `keep_entry` of the list `s`, as a predicate.
pub open spec fn keep_pred<T>(s: Seq<DiffEntryView<T>>) -> spec_fn(DiffEntryView<T>) -> bool {
    |e: DiffEntryView<T>| keep_entry(s, e)
}

/// The optimized change-set: sorted by path, without the redundant entries.
pub open spec fn optimize_spec<T>(s: Seq<DiffEntryView<T>>) -> Seq<DiffEntryView<T>> {
    let t = sort_by_path(s);
    t.filter(keep_pred(t))
}

proof fn lemma_insert_pos_bound<T>(r: Seq<DiffEntryView<T>>, x: DiffEntryView<T>)
    ensures
        insert_pos(r, x) <= r.len(),
        forall|j: int| 0 <= j < insert_pos(r, x) ==> !path_le(x.path, #[trigger] r[j].path),
        insert_pos(r, x) < r.len() ==> path_le(x.path, r[insert_pos(r, x) as int].path),
    decreases r.len(),
{
    if r.len() > 0 && !path_le(x.path, r[0].path) {
        lemma_insert_pos_bound(r.drop_first(), x);
        assert forall|j: int| 0 <= j < insert_pos(r, x) implies !path_le(
            x.path,
            #[trigger] r[j].path,
        ) by {
            if j > 0 {
                assert(r[j] == r.drop_first()[j - 1]);
            }
        }
    }
}

/// The sort orders by path and keeps every entry.
#[verifier::rlimit(40)]
pub proof fn lemma_sort_by_path<T>(s: Seq<DiffEntryView<T>>)
    ensures
        sorted_by_path(sort_by_path(s)),
        sort_by_path(s).to_multiset() == s.to_multiset(),
        sort_by_path(s).len() == s.len(),
    decreases s.len(),
{
    broadcast use vstd::seq_lib::group_to_multiset_ensures;

    if s.len() > 0 {
        let r = sort_by_path(s.drop_first());
        lemma_sort_by_path(s.drop_first());
        let x = s[0];
        lemma_insert_pos_bound(r, x);
        let p = insert_pos(r, x) as int;
        let t = r.insert(p, x);
        assert forall|i: int, j: int| 0 <= i < j < t.len() implies path_le(
            #[trigger] t[i].path,
            #[trigger] t[j].path,
        ) by {
            if i < p && j < p {
                assert(t[i] == r[i] && t[j] == r[j]);
            } else if i < p && j == p {
                lemma_path_le_total(x.path, r[i].path);
            } else if i < p && j > p {
                assert(t[i] == r[i] && t[j] == r[j - 1]);
            } else if i == p {
                assert(t[j] == r[j - 1]);
                if j - 1 > p {
                    lemma_path_le_trans(x.path, r[p].path, r[j - 1].path);
                }
            } else {
                assert(t[i] == r[i - 1] && t[j] == r[j - 1]);
            }
        }
        vstd::seq_lib::to_multiset_insert(r, p, x);
        assert(s =~= seq![x] + s.drop_first());
        assert(s.drop_first().to_multiset().insert(x) =~= s.to_multiset()) by {
            assert(s.drop_first().push(x).to_multiset() == s.drop_first().to_multiset().insert(x));
            vstd::seq_lib::lemma_seq_union_to_multiset_commutative(seq![x], s.drop_first());
            assert(s.drop_first().push(x) =~= s.drop_first() + seq![x]);
            vstd::seq_lib::lemma_multiset_commutative(seq![x], s.drop_first());
        }
    }
}

/// Sorting an already sorted list leaves it as it is.
pub proof fn lemma_sort_sorted<T>(s: Seq<DiffEntryView<T>>)
    requires
        sorted_by_path(s),
    ensures
        sort_by_path(s) == s,
    decreases s.len(),
{
    if s.len() > 0 {
        let d = s.drop_first();
        assert(sorted_by_path(d)) by {
            assert forall|i: int, j: int| 0 <= i < j < d.len() implies path_le(
                #[trigger] d[i].path,
                #[trigger] d[j].path,
            ) by {
                assert(d[i] == s[i + 1] && d[j] == s[j + 1]);
            }
        }
        lemma_sort_sorted(d);
        if d.len() > 0 {
            assert(path_le(s[0].path, s[1].path));
        }
        assert(d.insert(0, s[0]) =~= s);
    }
}

proof fn lemma_filter_sorted<T>(s: Seq<DiffEntryView<T>>, p: spec_fn(DiffEntryView<T>) -> bool)
    requires
        sorted_by_path(s),
    ensures
        sorted_by_path(s.filter(p)),
    decreases s.len(),
{
    broadcast use vstd::seq_lib::group_filter_ensures;

    reveal(Seq::filter);
    if s.len() > 0 {
        let d = s.drop_last();
        assert(sorted_by_path(d)) by {
            assert forall|i: int, j: int| 0 <= i < j < d.len() implies path_le(
                #[trigger] d[i].path,
                #[trigger] d[j].path,
            ) by {
                assert(d[i] == s[i] && d[j] == s[j]);
            }
        }
        lemma_filter_sorted(d, p);
        let f = d.filter(p);
        if p(s.last()) {
            let g = f.push(s.last());
            assert forall|i: int, j: int| 0 <= i < j < g.len() implies path_le(
                #[trigger] g[i].path,
                #[trigger] g[j].path,
            ) by {
                if j == g.len() - 1 {
                    assert(f.contains(g[i]));
                    d.lemma_filter_contains_rev(p, g[i]);
                    let k = choose|k: int| 0 <= k < d.len() && d[k] == g[i];
                    assert(s[k] == g[i]);
                    assert(path_le(s[k].path, s[s.len() - 1].path));
                } else {
                    assert(g[i] == f[i] && g[j] == f[j]);
                }
            }
        }
    }
}

proof fn lemma_filter_all<T>(s: Seq<DiffEntryView<T>>, p: spec_fn(DiffEntryView<T>) -> bool)
    requires
        forall|i: int| 0 <= i < s.len() ==> p(#[trigger] s[i]),
    ensures
        s.filter(p) == s,
    decreases s.len(),
{
    reveal(Seq::filter);
    if s.len() > 0 {
        lemma_filter_all(s.drop_last(), p);
        assert(p(s[s.len() - 1]));
        assert(s.drop_last().push(s.last()) =~= s);
    }
}

/// Optimizing an optimized change-set changes nothing.
#[verifier::rlimit(40)]
pub proof fn lemma_optimize_idempotent<T>(s: Seq<DiffEntryView<T>>)
    ensures
        optimize_spec(optimize_spec(s)) == optimize_spec(s),
{
    broadcast use vstd::seq_lib::group_filter_ensures;

    let t = sort_by_path(s);
    let pt = keep_pred(t);
    let u = t.filter(pt);
    lemma_sort_by_path(s);
    lemma_filter_sorted(t, pt);
    lemma_sort_sorted(u);
    let pu = keep_pred(u);
    assert forall|i: int| 0 <= i < u.len() implies pu(#[trigger] u[i]) by {
        let e = u[i];
        assert(u.contains(e));
        t.lemma_filter_contains_rev(pt, e);
        assert(keep_entry(t, e));
        assert forall|k: int| 0 <= k < u.len() implies exists|m: int|
            0 <= m < t.len() && t[m] == #[trigger] u[k] by {
            assert(u.contains(u[k]));
            t.lemma_filter_contains_rev(pt, u[k]);
        }
        if e.file_type == FileType::Directory && e.diff_type is Created {
            if exists|k: int| 0 <= k < u.len() && is_descendant(e.path, #[trigger] u[k].path) {
                let k = choose|k: int| 0 <= k < u.len() && is_descendant(e.path, #[trigger] u[k].path);
                let m = choose|m: int| 0 <= m < t.len() && t[m] == u[k];
                assert(is_descendant(e.path, t[m].path));
            }
        }
        if e.diff_type is Removed {
            if under_removed_dir(u, e.path) {
                let k = choose|k: int|
                    0 <= k < u.len() && (#[trigger] u[k]).file_type == FileType::Directory
                        && u[k].diff_type is Removed && is_descendant(u[k].path, e.path);
                let m = choose|m: int| 0 <= m < t.len() && t[m] == u[k];
                assert(t[m].file_type == FileType::Directory);
            }
        }
    }
    lemma_filter_all(u, pu);
}

proof fn lemma_filter_only<T>(t: Seq<DiffEntryView<T>>, p: spec_fn(DiffEntryView<T>) -> bool, a: DiffEntryView<T>)
    requires
        forall|i: int| 0 <= i < t.len() ==> (p(#[trigger] t[i]) <==> t[i] == a),
    ensures
        t.filter(p) == Seq::new(t.to_multiset().count(a), |i: int| a),
    decreases t.len(),
{
    broadcast use vstd::seq_lib::group_to_multiset_ensures;

    reveal(Seq::filter);
    if t.len() == 0 {
        assert(t.to_multiset().count(a) == 0);
        assert(t.filter(p) =~= Seq::new(0, |i: int| a));
    } else {
        let d = t.drop_last();
        assert forall|i: int| 0 <= i < d.len() implies (p(#[trigger] d[i]) <==> d[i] == a) by {
            assert(d[i] == t[i]);
        }
        lemma_filter_only(d, p, a);
        assert(d.push(t.last()) =~= t);
        assert(t.to_multiset() =~= d.to_multiset().insert(t.last()));
        assert(p(t[t.len() - 1]) <==> t.last() == a);
        assert(t.filter(p) =~= Seq::new(t.to_multiset().count(a), |i: int| a));
    }
}

/// A removed directory listed together with removed entries that all lie
/// inside it collapses to that one directory entry.
pub proof fn lemma_removed_tree_collapses<T>(d: DiffEntryView<T>, rest: Seq<DiffEntryView<T>>)
    requires
        d.file_type == FileType::Directory,
        d.diff_type is Removed,
        forall|i: int|
            0 <= i < rest.len() ==> (#[trigger] rest[i]).diff_type is Removed && is_descendant(
                d.path,
                rest[i].path,
            ),
    ensures
        optimize_spec(seq![d] + rest) == seq![d],
{
    broadcast use vstd::seq_lib::group_to_multiset_ensures;

    let s = seq![d] + rest;
    let t = sort_by_path(s);
    lemma_sort_by_path(s);
    assert forall|i: int| 0 <= i < t.len() implies #[trigger] t[i] == d || (rest.contains(t[i])
        && t[i].path.len() > d.path.len()) by {
        assert(t.contains(t[i]));
        assert(t.to_multiset().count(t[i]) > 0);
        assert(s.contains(t[i]));
        let j = choose|j: int| 0 <= j < s.len() && s[j] == t[i];
        if j > 0 {
            assert(s[j] == rest[j - 1]);
        }
    }
    assert(s[0] == d);
    assert(s.contains(d));
    assert(s.to_multiset().count(d) > 0);
    assert(t.to_multiset().count(d) > 0);
    assert(t.contains(d));
    let kd = choose|k: int| 0 <= k < t.len() && t[k] == d;
    assert forall|i: int| 0 <= i < t.len() implies (keep_pred(t)(#[trigger] t[i]) <==> t[i] == d) by {
        if t[i] == d {
            if under_removed_dir(t, d.path) {
                let k = choose|k: int|
                    0 <= k < t.len() && (#[trigger] t[k]).file_type == FileType::Directory
                        && t[k].diff_type is Removed && is_descendant(t[k].path, d.path);
                assert(t[k] == d || t[k].path.len() > d.path.len());
            }
        } else {
            let x = t[i];
            assert(rest.contains(x));
            let j = choose|j: int| 0 <= j < rest.len() && rest[j] == x;
            assert(x.diff_type is Removed && is_descendant(d.path, x.path));
            assert(t[kd].file_type == FileType::Directory);
            assert(under_removed_dir(t, x.path));
        }
    }
    lemma_filter_only(t, keep_pred(t), d);
    vstd::seq_lib::lemma_multiset_commutative(seq![d], rest);
    assert(!rest.contains(d)) by {
        if rest.contains(d) {
            let j = choose|j: int| 0 <= j < rest.len() && rest[j] == d;
            assert(is_descendant(d.path, rest[j].path));
        }
    }
    assert(seq![d].to_multiset().count(d) == 1) by {
        assert(Seq::<DiffEntryView<T>>::empty().push(d) =~= seq![d]);
    }
    assert(t.to_multiset().count(d) == 1);
    assert(Seq::new(1, |i: int| d) =~= seq![d]);
}

/// Whether path `a` comes no later than path `b` in byte-wise order.
pub fn path_le_exec(a: &[u8], b: &[u8]) -> (r: bool)
    ensures
        r == path_le(a@, b@),
{
    let mut i: usize = 0;
    proof {
        assert(a@.skip(0) =~= a@);
        assert(b@.skip(0) =~= b@);
    }
    while i < a.len() && i < b.len()
        invariant
            i <= a@.len(),
            i <= b@.len(),
            path_le(a@, b@) == path_le(a@.skip(i as int), b@.skip(i as int)),
        decreases a@.len() - i,
    {
        proof {
            assert(a@.skip(i as int)[0] == a@[i as int]);
            assert(b@.skip(i as int)[0] == b@[i as int]);
            assert(a@.skip(i as int).drop_first() =~= a@.skip(i + 1));
            assert(b@.skip(i as int).drop_first() =~= b@.skip(i + 1));
        }
        if a[i] != b[i] {
            return a[i] < b[i];
        }
        i += 1;
    }
    i == a.len()
}

proof fn lemma_path_le_refl(a: Seq<u8>)
    ensures
        path_le(a, a),
    decreases a.len(),
{
    if a.len() > 0 {
        lemma_path_le_refl(a.drop_first());
    }
}

proof fn lemma_path_le_antisym(a: Seq<u8>, b: Seq<u8>)
    requires
        path_le(a, b),
        path_le(b, a),
    ensures
        a == b,
    decreases a.len(),
{
    if a.len() > 0 && b.len() > 0 {
        lemma_path_le_antisym(a.drop_first(), b.drop_first());
        assert(a =~= seq![a[0]] + a.drop_first());
        assert(b =~= seq![b[0]] + b.drop_first());
    } else {
        assert(a =~= b);
    }
}

/// A path comes no later than the paths that continue it.
proof fn lemma_prefix_le(x: Seq<u8>, p: Seq<u8>)
    requires
        x.len() <= p.len(),
        p.take(x.len() as int) == x,
    ensures
        path_le(x, p),
    decreases x.len(),
{
    if x.len() > 0 {
        assert(p.drop_first().take(x.len() - 1) =~= x.drop_first());
        assert(p[0] == x[0]);
        lemma_prefix_le(x.drop_first(), p.drop_first());
    }
}

/// Between a path and a path that continues it, every path continues it.
proof fn lemma_prefix_between(x: Seq<u8>, a: Seq<u8>, b: Seq<u8>)
    requires
        path_le(x, a),
        path_le(a, b),
        x.len() <= b.len(),
        b.take(x.len() as int) == x,
    ensures
        x.len() <= a.len(),
        a.take(x.len() as int) == x,
    decreases x.len(),
{
    if x.len() == 0 {
        assert(a.take(0) =~= x);
    } else {
        assert(b[0] == x[0]);
        assert(a.len() > 0);
        assert(a[0] == x[0]);
        assert(b.drop_first().take(x.len() - 1) =~= x.drop_first());
        lemma_prefix_between(x.drop_first(), a.drop_first(), b.drop_first());
        assert(a.take(x.len() as int) =~= seq![a[0]] + a.drop_first().take(x.len() - 1));
        assert(x =~= seq![x[0]] + x.drop_first());
    }
}

/// The first index whose path is not below `key` in a sorted list.
fn lower_bound<T>(t: &Vec<DiffEntry<T>>, key: &[u8]) -> (r: usize)
    requires
        sorted_by_path(entries_view(t@)),
    ensures
        r <= t@.len(),
        forall|m: int| 0 <= m < r ==> !path_le(key@, #[trigger] t@[m].path@),
        forall|m: int| r <= m < t@.len() ==> path_le(key@, #[trigger] t@[m].path@),
{
    let ghost tv = entries_view(t@);
    let mut lo: usize = 0;
    let mut hi: usize = t.len();
    while lo < hi
        invariant
            tv == entries_view(t@),
            sorted_by_path(tv),
            lo <= hi <= t@.len(),
            forall|m: int| 0 <= m < lo ==> !path_le(key@, #[trigger] t@[m].path@),
            forall|m: int| hi <= m < t@.len() ==> path_le(key@, #[trigger] t@[m].path@),
        decreases hi - lo,
    {
        let mid: usize = lo + (hi - lo) / 2;
        if path_le_exec(key, t[mid].path.as_slice()) {
            proof {
                assert forall|m: int| mid <= m < t@.len() implies path_le(key@, #[trigger] t@[m].path@) by {
                    if m > mid {
                        assert(tv[mid as int].path == t@[mid as int].path@ && tv[m].path == t@[m].path@);
                        lemma_path_le_trans(key@, t@[mid as int].path@, t@[m].path@);
                    }
                }
            }
            hi = mid;
        } else {
            proof {
                assert forall|m: int| 0 <= m < mid + 1 implies !path_le(key@, #[trigger] t@[m].path@) by {
                    if m < mid && path_le(key@, t@[m].path@) {
                        assert(tv[m].path == t@[m].path@ && tv[mid as int].path == t@[mid as int].path@);
                        lemma_path_le_trans(key@, t@[m].path@, t@[mid as int].path@);
                    }
                }
            }
            lo = mid + 1;
        }
    }
    lo
}

#[verifier::rlimit(40)]
fn keep_at<T>(t: &Vec<DiffEntry<T>>, i: usize) -> (r: bool)
    requires
        i < t@.len(),
        sorted_by_path(entries_view(t@)),
    ensures
        r == keep_entry(entries_view(t@), t@[i as int]@),
{
    let ghost tv = entries_view(t@);
    let e = &t[i];
    match e.file_type {
        FileType::Directory => match e.diff_type {
            DiffType::Modified(_) => false,
            DiffType::Created(_) => {
                let mut inside = crate::bytes::copy_bytes(e.path.as_slice());
                inside.push(SLASH);
                let lb = lower_bound(t, inside.as_slice());
                let found = lb < t.len() && crate::bytes::starts_with(t[lb].path.as_slice(), inside.as_slice());
                proof {
                    let x = inside@;
                    let d = e.path@;
                    assert(x == d.push(SLASH));
                    assert(x.take(d.len() as int) =~= d);
                    assert(x[d.len() as int] == SLASH);
                    assert forall|m: int| 0 <= m < tv.len() implies (is_descendant(d, #[trigger] tv[m].path)
                        <==> (x.len() <= tv[m].path.len() && tv[m].path.take(x.len() as int) == x)) by {
                        let p = tv[m].path;
                        if is_descendant(d, p) {
                            assert(p.take(x.len() as int) =~= p.take(d.len() as int).push(p[d.len() as int]));
                            assert(p.take(x.len() as int) =~= x);
                        }
                        if x.len() <= p.len() && p.take(x.len() as int) == x {
                            assert(p.take(d.len() as int) =~= x.take(d.len() as int));
                            assert(p[d.len() as int] == p.take(x.len() as int)[d.len() as int]);
                        }
                    }
                    assert(t@[i as int]@.path == d);
                    assert(t@[i as int]@.diff_type is Created);
                    assert(t@[i as int]@.file_type == FileType::Directory);
                    if found {
                        assert(tv[lb as int] == t@[lb as int]@);
                        assert(tv[lb as int].path.take(x.len() as int) == x);
                        assert(is_descendant(d, tv[lb as int].path));
                    } else {
                        assert forall|m: int| 0 <= m < tv.len() implies !is_descendant(e.path@, #[trigger] tv[m].path) by {
                            let p = tv[m].path;
                            assert(tv[m] == t@[m]@);
                            if x.len() <= p.len() && p.take(x.len() as int) == x {
                                lemma_prefix_le(x, p);
                                assert(m >= lb);
                                assert(tv[lb as int] == t@[lb as int]@);
                                if m > lb {
                                    lemma_prefix_between(x, tv[lb as int].path, p);
                                } else {
                                    assert(m == lb);
                                }
                            }
                        }
                    }
                }
                !found
            },
            DiffType::Removed => {
                proof {
                    assert(t@[i as int]@.diff_type is Removed);
                    assert(t@[i as int]@.path == e.path@);
                }
                !under_removed_dir_exec(t, e.path.as_slice())
            },
            DiffType::Renamed(_) => true,
        },
        FileType::RegularFile => match e.diff_type {
            DiffType::Removed => {
                proof {
                    assert(t@[i as int]@.diff_type is Removed);
                    assert(t@[i as int]@.path == e.path@);
                }
                !under_removed_dir_exec(t, e.path.as_slice())
            },
            _ => true,
        },
    }
}

/// `s` lists a removed directory at exactly the path `key`.
pub open spec fn has_removed_dir<T>(s: Seq<DiffEntryView<T>>, key: Seq<u8>) -> bool {
    exists|k: int|
        0 <= k < s.len() && (#[trigger] s[k]).file_type == FileType::Directory
            && s[k].diff_type is Removed && s[k].path == key
}

#[verifier::rlimit(40)]
fn has_removed_dir_exec<T>(t: &Vec<DiffEntry<T>>, key: &[u8]) -> (r: bool)
    requires
        sorted_by_path(entries_view(t@)),
    ensures
        r == has_removed_dir(entries_view(t@), key@),
{
    let ghost tv = entries_view(t@);
    let ghost pp = key@;
    let lb = lower_bound(t, key);
    let mut k: usize = lb;
    while k < t.len() && crate::bytes::bytes_equal(t[k].path.as_slice(), key)
        invariant
            tv == entries_view(t@),
            sorted_by_path(tv),
            lb <= k <= t@.len(),
            pp == key@,
            forall|m: int| 0 <= m < lb ==> !path_le(pp, #[trigger] t@[m].path@),
            forall|m: int| lb <= m < t@.len() ==> path_le(pp, #[trigger] t@[m].path@),
            forall|m: int|
                lb <= m < k ==> !((#[trigger] tv[m]).file_type == FileType::Directory
                    && tv[m].diff_type is Removed && tv[m].path == pp),
        decreases t@.len() - k,
    {
        let f = &t[k];
        if f.file_type == FileType::Directory && matches!(f.diff_type, DiffType::Removed) {
            proof {
                assert(tv[k as int] == t@[k as int]@);
            }
            return true;
        }
        proof {
            assert(tv[k as int] == t@[k as int]@);
        }
        k += 1;
    }
    proof {
        assert forall|m: int| 0 <= m < tv.len() implies !((#[trigger] tv[m]).file_type
            == FileType::Directory && tv[m].diff_type is Removed && tv[m].path == pp) by {
            assert(tv[m] == t@[m]@);
            if tv[m].file_type == FileType::Directory && tv[m].diff_type is Removed && tv[m].path
                == pp {
                lemma_path_le_refl(pp);
                assert(m >= lb);
                if m >= k {
                    assert(k < t@.len());
                    assert(tv[k as int] == t@[k as int]@);
                    assert(t@[k as int].path@ != pp);
                    if m > k {
                        assert(path_le(tv[k as int].path, tv[m].path));
                    }
                    lemma_path_le_antisym(t@[k as int].path@, pp);
                }
            }
        }
    }
    false
}

/// Whether `t` lists a removed directory that `p` lies inside: one lookup per
/// separator of `p`.
#[verifier::rlimit(40)]
fn under_removed_dir_exec<T>(t: &Vec<DiffEntry<T>>, p: &[u8]) -> (r: bool)
    requires
        sorted_by_path(entries_view(t@)),
    ensures
        r == under_removed_dir(entries_view(t@), p@),
{
    let ghost tv = entries_view(t@);
    let mut prefix: Vec<u8> = Vec::new();
    let mut q: usize = 0;
    while q < p.len()
        invariant
            tv == entries_view(t@),
            sorted_by_path(tv),
            q <= p@.len(),
            prefix@ == p@.take(q as int),
            forall|m: int|
                0 <= m < tv.len() && (#[trigger] tv[m]).file_type == FileType::Directory
                    && tv[m].diff_type is Removed && is_descendant(tv[m].path, p@) ==> tv[m].path.len()
                    >= q,
        decreases p@.len() - q,
    {
        if p[q] == SLASH {
            if has_removed_dir_exec(t, prefix.as_slice()) {
                proof {
                    let k = choose|k: int|
                        0 <= k < tv.len() && (#[trigger] tv[k]).file_type == FileType::Directory
                            && tv[k].diff_type is Removed && tv[k].path == prefix@;
                    assert(is_descendant(tv[k].path, p@));
                }
                return true;
            }
        }
        proof {
            assert forall|m: int|
                0 <= m < tv.len() && (#[trigger] tv[m]).file_type == FileType::Directory
                    && tv[m].diff_type is Removed && is_descendant(tv[m].path, p@) implies tv[m].path.len()
                    >= q + 1 by {
                if tv[m].path.len() == q {
                    assert(tv[m].path =~= prefix@);
                }
            }
        }
        prefix.push(p[q]);
        q += 1;
        proof {
            assert(prefix@ =~= p@.take(q as int));
        }
    }
    false
}

/// The elements of `v` in reverse order.
fn reversed<E>(v: Vec<E>) -> (r: Vec<E>)
    ensures
        r@.len() == v@.len(),
        forall|k: int| 0 <= k < v@.len() ==> r@[k] == v@[v@.len() - 1 - k],
{
    let ghost orig = v@;
    let mut v = v;
    let mut r: Vec<E> = Vec::new();
    while v.len() > 0
        invariant
            v@ == orig.take(v@.len() as int),
            r@.len() + v@.len() == orig.len(),
            forall|k: int| 0 <= k < r@.len() ==> r@[k] == orig[orig.len() - 1 - k],
        decreases v@.len(),
    {
        let x = v.pop().unwrap();
        r.push(x);
        proof {
            assert(v@ =~= orig.take(v@.len() as int));
        }
    }
    r
}

/// Sorts by path, stably.
#[verifier::rlimit(40)]
fn sort_entries<T>(v: Vec<DiffEntry<T>>) -> (r: Vec<DiffEntry<T>>)
    ensures
        entries_view(r@) == sort_by_path(entries_view(v@)),
{
    let ghost orig = entries_view(v@);
    let ghost ov = v@;
    let mut v = v;
    let mut r: Vec<DiffEntry<T>> = Vec::new();
    proof {
        assert(orig.skip(orig.len() as int) =~= Seq::<DiffEntryView<T>>::empty());
        assert(entries_view(r@) =~= Seq::<DiffEntryView<T>>::empty());
    }
    while v.len() > 0
        invariant
            orig == entries_view(ov),
            v@.len() <= ov.len(),
            v@ == ov.take(v@.len() as int),
            entries_view(r@) == sort_by_path(orig.skip(v@.len() as int)),
        decreases v@.len(),
    {
        let ghost k = v@.len() as int;
        let x = v.pop().unwrap();
        let ghost rv = entries_view(r@);
        proof {
            assert(v@ =~= ov.take(v@.len() as int));
            assert(orig.skip(k - 1).drop_first() =~= orig.skip(k));
            assert(orig.skip(k - 1)[0] == x@);
        }
        proof {
            lemma_sort_by_path(orig.skip(k));
        }
        let j = lower_bound(&r, x.path.as_slice());
        proof {
            lemma_insert_pos_bound(rv, x@);
            let p = insert_pos(rv, x@) as int;
            if (j as int) < p {
                assert(rv[j as int] == r@[j as int]@);
                assert(path_le(x.path@, r@[j as int].path@));
                assert(!path_le(x@.path, rv[j as int].path));
            } else if (j as int) > p {
                assert(rv[p] == r@[p]@);
                assert(!path_le(x.path@, r@[p].path@));
                assert(path_le(x@.path, rv[p].path));
            }
        }
        r.insert(j, x);
        proof {
            assert(entries_view(r@) =~= rv.insert(j as int, x@));
            assert(j == insert_pos(rv, x@));
            let s1 = orig.skip(k - 1);
            assert(s1.len() > 0);
            assert(sort_by_path(s1) == rv.insert(insert_pos(rv, s1[0]) as int, s1[0]));
            assert(v@.len() == k - 1);
        }
    }
    proof {
        assert(orig.skip(0) =~= orig);
    }
    r
}

/// Sorts the change-set by path and removes the redundant entries: modified
/// directories, created directories with anything listed inside them, and
/// removed files and directories that lie inside a directory removed too.
#[verifier::rlimit(40)]
pub fn optimize_diff_entries<T>(diff_entries: &mut Vec<DiffEntry<T>>)
    ensures
        entries_view(final(diff_entries)@) == optimize_spec(entries_view(old(diff_entries)@)),
{
    let mut taken: Vec<DiffEntry<T>> = Vec::new();
    std::mem::swap(diff_entries, &mut taken);
    let ghost orig = entries_view(taken@);
    let sorted = sort_entries(taken);
    let ghost tv = entries_view(sorted@);
    proof {
        lemma_sort_by_path(orig);
    }
    let n: usize = sorted.len();
    let mut flags: Vec<bool> = Vec::new();
    let mut i: usize = 0;
    while i < n
        invariant
            n == sorted@.len(),
            tv == entries_view(sorted@),
            sorted_by_path(tv),
            i <= n,
            flags@.len() == i,
            forall|k: int| 0 <= k < i ==> flags@[k] == keep_entry(tv, #[trigger] tv[k]),
        decreases n - i,
    {
        flags.push(keep_at(&sorted, i));
        i += 1;
    }
    let ghost sv = sorted@;
    let mut rest = reversed(sorted);
    let mut out: Vec<DiffEntry<T>> = Vec::new();
    let mut i: usize = 0;
    proof {
        reveal(Seq::filter);
        assert(entries_view(out@) =~= tv.take(0).filter(keep_pred(tv)));
    }
    while i < n
        invariant
            n == sv.len(),
            tv == entries_view(sv),
            flags@.len() == n,
            forall|k: int| 0 <= k < n ==> flags@[k] == keep_entry(tv, #[trigger] tv[k]),
            i <= n,
            rest@.len() == n - i,
            forall|k: int| 0 <= k < n - i ==> rest@[k] == sv[n - 1 - k],
            entries_view(out@) == tv.take(i as int).filter(keep_pred(tv)),
        decreases n - i,
    {
        let x = rest.pop().unwrap();
        proof {
            reveal(Seq::filter);
            assert(x == sv[i as int]);
            assert(tv.take(i + 1).drop_last() =~= tv.take(i as int));
            assert(tv.take(i + 1).last() == tv[i as int]);
        }
        let ghost before = out@;
        if flags[i] {
            out.push(x);
            proof {
                assert(entries_view(out@) =~= entries_view(before).push(x@));
            }
        }
        i += 1;
    }
    proof {
        assert(tv.take(n as int) =~= tv);
    }
    *diff_entries = out;
}

} // verus!
