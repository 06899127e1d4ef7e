//! Canonical snapshot normalization.
//!
//! A raw listing of a tree (one record per entry, paths relative to the root,
//! the root itself carrying an empty path) is turned into the canonical
//! record sequence: the root record is dropped, the records are sorted
//! ascending by path with byte-wise component comparison, and the inode
//! numbers are remapped to a dense synthetic space assigned by first
//! encounter in sorted order.

use vstd::prelude::*;
use vstd::seq_lib::lemma_multiset_commutative;
use crate::order::lemma_path_le_total;
use crate::order::lemma_path_le_trans;
use crate::order::path_le;
use crate::order::path_le_exec;
use crate::types::FileInfo;
use crate::types::FileInfoV;
use crate::types::Metadata;
use crate::types::records_view;

verus! {

/// A record that names a real entry: its relative path is non-empty. The
/// snapshot root itself is listed with an empty relative path.
pub open spec fn nonempty_rec(r: FileInfoV) -> bool {
    r.path.len() > 0
}

/// The records kept by a snapshot: everything but the root.
pub open spec fn kept(s: Seq<FileInfoV>) -> Seq<FileInfoV> {
    s.filter(|r: FileInfoV| nonempty_rec(r))
}

/// Records ordered by their relative paths.
pub open spec fn sorted_recs(s: Seq<FileInfoV>) -> bool {
    forall|i: int, j: int|
        0 <= i < j < s.len() ==> path_le((#[trigger] s[i]).path, (#[trigger] s[j]).path)
}

/// Insert a record into a path-sorted sequence, after any records whose path
/// compares less-or-equal; the stable insertion position.
pub open spec fn insert_sorted(x: FileInfoV, s: Seq<FileInfoV>) -> Seq<FileInfoV>
    decreases s.len(),
{
    if s.len() == 0 {
        seq![x]
    } else if path_le(s[0].path, x.path) {
        seq![s[0]] + insert_sorted(x, s.drop_first())
    } else {
        seq![x] + s
    }
}

/// Stable insertion sort by path, processing records left to right.
pub open spec fn sort_fold(acc: Seq<FileInfoV>, s: Seq<FileInfoV>) -> Seq<FileInfoV>
    decreases s.len(),
{
    if s.len() == 0 {
        acc
    } else {
        sort_fold(insert_sorted(s[0], acc), s.drop_first())
    }
}

/// The records sorted ascending by path; stable, so records with equal paths
/// keep their relative order.
pub open spec fn sort_by_path(s: Seq<FileInfoV>) -> Seq<FileInfoV> {
    sort_fold(Seq::empty(), s)
}

/// The inode numbers of a record sequence, in order.
pub open spec fn inos_of(s: Seq<FileInfoV>) -> Seq<u64> {
    s.map_values(|r: FileInfoV| r.metadata.ino)
}

/// The distinct values of `s` in order of first encounter.
pub open spec fn firsts(s: Seq<u64>) -> Seq<u64>
    decreases s.len(),
{
    if s.len() == 0 {
        Seq::empty()
    } else {
        let rest = firsts(s.drop_last());
        if rest.contains(s.last()) {
            rest
        } else {
            rest.push(s.last())
        }
    }
}

/// The synthetic inode assigned to original inode `v`: its position in the
/// first-encounter order of `inos`.
pub open spec fn synthetic_ino(inos: Seq<u64>, v: u64) -> int {
    firsts(inos).index_of(v)
}

/// One record with its inode replaced by the synthetic one.
pub open spec fn remapped_rec(r: FileInfoV, inos: Seq<u64>) -> FileInfoV {
    FileInfoV {
        path: r.path,
        metadata: Metadata {
            dev: r.metadata.dev,
            ino: synthetic_ino(inos, r.metadata.ino) as u64,
            mode: r.metadata.mode,
            uid: r.metadata.uid,
            gid: r.metadata.gid,
            nlink: r.metadata.nlink,
            rdev: r.metadata.rdev,
            mtime: r.metadata.mtime,
            file_size: r.metadata.file_size,
        },
        contents: r.contents,
    }
}

/// All records with their inodes replaced by synthetic ones assigned by first
/// encounter: records sharing an original inode share a synthetic one, and
/// synthetic inodes start at 0 and increase by 1 per newly seen class.
pub open spec fn remap_records(s: Seq<FileInfoV>) -> Seq<FileInfoV> {
    Seq::new(s.len(), |i: int| remapped_rec(s[i], inos_of(s)))
}

/// The canonical snapshot of a raw listing: drop the root record, sort by
/// path, remap inodes.
pub open spec fn canonical_listing(s: Seq<FileInfoV>) -> Seq<FileInfoV> {
    remap_records(sort_by_path(kept(s)))
}

/// `firsts` never invents values: it contains exactly the values of `s`.
proof fn lemma_firsts_contains(s: Seq<u64>)
    ensures
        forall|v: u64| firsts(s).contains(v) <==> s.contains(v),
    decreases s.len(),
{
    if s.len() == 0 {
    } else {
        lemma_firsts_contains(s.drop_last());
        assert forall|v: u64| firsts(s).contains(v) <==> s.contains(v) by {
            let rest = firsts(s.drop_last());
            if s.contains(v) {
                let i = choose|i: int| 0 <= i < s.len() && s[i] == v;
                if i < s.len() - 1 {
                    assert(s.drop_last()[i] == v);
                    assert(s.drop_last().contains(v));
                    if !rest.contains(s.last()) {
                        assert(firsts(s)[rest.index_of(v)] == v) by {
                            assert(rest.contains(v));
                            assert(rest[rest.index_of(v)] == v);
                        }
                        assert(firsts(s).contains(v));
                    }
                } else {
                    assert(s.last() == v);
                    if rest.contains(v) {
                    } else {
                        assert(firsts(s).last() == v);
                    }
                    assert(firsts(s).contains(v));
                }
            }
            if firsts(s).contains(v) {
                if rest.contains(s.last()) {
                    assert(s.drop_last().contains(v));
                    let j = choose|j: int| 0 <= j < s.drop_last().len() && s.drop_last()[j] == v;
                    assert(s[j] == v);
                } else {
                    let j = choose|j: int| 0 <= j < firsts(s).len() && firsts(s)[j] == v;
                    if j < rest.len() {
                        assert(rest.contains(v));
                        assert(s.drop_last().contains(v));
                        let m = choose|m: int|
                            0 <= m < s.drop_last().len() && s.drop_last()[m] == v;
                        assert(s[m] == v);
                    } else {
                        assert(firsts(s)[j] == s.last());
                        assert(s[s.len() - 1] == v);
                    }
                }
                assert(s.contains(v));
            }
        }
    }
}

/// The first-encounter list has no duplicates.
proof fn lemma_firsts_distinct(s: Seq<u64>)
    ensures
        forall|i: int, j: int|
            0 <= i < j < firsts(s).len() ==> #[trigger] firsts(s)[i] != #[trigger] firsts(s)[j],
    decreases s.len(),
{
    if s.len() == 0 {
    } else {
        lemma_firsts_distinct(s.drop_last());
        let rest = firsts(s.drop_last());
        if rest.contains(s.last()) {
        } else {
            assert forall|i: int, j: int|
                0 <= i < j < firsts(s).len() implies #[trigger] firsts(s)[i]
                != #[trigger] firsts(s)[j] by {
                if j < rest.len() {
                } else {
                    assert(firsts(s)[j] == s.last());
                    assert(firsts(s)[i] == rest[i]);
                    if rest[i] == s.last() {
                        assert(rest.contains(s.last()));
                    }
                }
            }
        }
    }
}

/// The first-encounter list of a prefix is a prefix of the whole list.
proof fn lemma_firsts_take_prefix(s: Seq<u64>, k: int)
    requires
        0 <= k <= s.len(),
    ensures
        firsts(s.take(k)).is_prefix_of(firsts(s)),
    decreases s.len() - k,
{
    if k == s.len() {
        assert(s.take(k) =~= s);
    } else {
        lemma_firsts_take_prefix(s, k + 1);
        let a = firsts(s.take(k));
        let b = firsts(s.take(k + 1));
        assert(s.take(k + 1).drop_last() =~= s.take(k));
        assert(a.is_prefix_of(b)) by {
            if a.contains(s.take(k + 1).last()) {
                assert(b == a);
                assert(a =~= b.subrange(0, a.len() as int));
            } else {
                assert(b == a.push(s.take(k + 1).last()));
                assert(a =~= b.subrange(0, a.len() as int));
            }
        }
        assert(a =~= firsts(s).subrange(0, a.len() as int)) by {
            assert(b =~= firsts(s).subrange(0, b.len() as int));
            assert(forall|i: int| 0 <= i < a.len() ==> a[i] == b[i]);
            assert(forall|i: int| 0 <= i < b.len() ==> b[i] == firsts(s)[i]);
        }
    }
}

/// Inserting an element into a sequence inserts it into the multiset.
proof fn lemma_insert_multiset(s: Seq<FileInfoV>, i: int, x: FileInfoV)
    requires
        0 <= i <= s.len(),
    ensures
        s.insert(i, x).to_multiset() == s.to_multiset().insert(x),
{
    broadcast use vstd::seq_lib::group_to_multiset_ensures;

    let a = s.subrange(0, i);
    let b = s.subrange(i, s.len() as int);
    assert(s.insert(i, x) =~= a.push(x) + b);
    assert(s =~= a + b);
    lemma_multiset_commutative(a.push(x), b);
    lemma_multiset_commutative(a, b);
    assert(a.push(x).to_multiset() =~= a.to_multiset().insert(x));
    assert(s.insert(i, x).to_multiset() =~= s.to_multiset().insert(x));
}

/// When every record before `idx` compares less-or-equal and the record at
/// `idx` does not, stable insertion lands exactly at `idx`.
proof fn lemma_insert_sorted_at(x: FileInfoV, s: Seq<FileInfoV>, idx: int)
    requires
        0 <= idx <= s.len(),
        forall|a: int| 0 <= a < idx ==> path_le((#[trigger] s[a]).path, x.path),
        idx < s.len() ==> !path_le(s[idx].path, x.path),
    ensures
        insert_sorted(x, s) == s.insert(idx, x),
    decreases s.len(),
{
    if idx == 0 {
        if s.len() == 0 {
            assert(insert_sorted(x, s) =~= s.insert(0, x));
        } else {
            assert(insert_sorted(x, s) == seq![x] + s);
            assert(seq![x] + s =~= s.insert(0, x));
        }
    } else {
        assert(path_le(s[0].path, x.path));
        assert forall|a: int| 0 <= a < idx - 1 implies path_le(
            (#[trigger] s.drop_first()[a]).path,
            x.path,
        ) by {
            assert(s.drop_first()[a] == s[a + 1]);
        }
        assert(idx - 1 < s.drop_first().len() ==> !path_le(s.drop_first()[idx - 1].path, x.path));
        lemma_insert_sorted_at(x, s.drop_first(), idx - 1);
        assert(seq![s[0]] + s.drop_first().insert(idx - 1, x) =~= s.insert(idx, x));
    }
}

/// Drop the root record (empty relative path) from a raw listing.
fn keep_nonempty(input: Vec<FileInfo>) -> (out: Vec<FileInfo>)
    ensures
        records_view(out@) == kept(records_view(input@)),
{
    let ghost orig = records_view(input@);
    let mut input = input;
    let mut out: Vec<FileInfo> = Vec::new();
    let ghost k: int = 0;
    proof {
        assert(records_view(input@).skip(0) =~= orig);
        assert(orig.take(0) =~= Seq::<FileInfoV>::empty());
        assert(kept(orig.take(0)) =~= Seq::<FileInfoV>::empty()) by {
            reveal(Seq::filter);
        }
        assert(records_view(out@) =~= Seq::<FileInfoV>::empty());
    }
    while input.len() > 0
        invariant
            0 <= k <= orig.len(),
            records_view(input@) == orig.skip(k),
            records_view(out@) == kept(orig.take(k)),
        decreases input.len(),
    {
        let ghost rem = records_view(input@);
        proof {
            assert(rem.len() == input@.len());
            assert(k < orig.len());
        }
        let r = input.remove(0);
        proof {
            assert(orig.skip(k)[0] == orig[k]);
            assert(r@ == orig[k]);
            assert(records_view(input@) =~= rem.drop_first());
            assert(rem.drop_first() =~= orig.skip(k + 1));
            assert(orig.take(k + 1).drop_last() =~= orig.take(k));
            assert(orig.take(k + 1).last() == orig[k]);
            reveal(Seq::filter);
        }
        let ghost pre = records_view(out@);
        if r.path.len() > 0 {
            out.push(r);
            proof {
                assert(records_view(out@) =~= pre.push(orig[k]));
                assert(nonempty_rec(orig[k]));
                assert(records_view(out@) =~= kept(orig.take(k + 1)));
            }
        } else {
            proof {
                assert(!nonempty_rec(orig[k]));
                assert(records_view(out@) =~= kept(orig.take(k + 1)));
            }
        }
        proof {
            k = k + 1;
        }
    }
    proof {
        assert(orig.take(orig.len() as int) =~= orig);
    }
    out
}

/// Stable insertion sort of records, ascending by relative path.
fn sort_records(input: Vec<FileInfo>) -> (out: Vec<FileInfo>)
    ensures
        records_view(out@) == sort_by_path(records_view(input@)),
        sorted_recs(records_view(out@)),
        records_view(out@).to_multiset() == records_view(input@).to_multiset(),
{
    let ghost orig = records_view(input@);
    let mut input = input;
    let mut out: Vec<FileInfo> = Vec::new();
    proof {
        broadcast use vstd::seq_lib::group_to_multiset_ensures;

        assert(records_view(input@).skip(0) =~= orig);
        assert(records_view(out@) =~= Seq::<FileInfoV>::empty());
        assert(records_view(out@).to_multiset().add(orig.to_multiset()) =~= orig.to_multiset());
    }
    let ghost k: int = 0;
    while input.len() > 0
        invariant
            0 <= k <= orig.len(),
            records_view(input@) == orig.skip(k),
            sort_fold(records_view(out@), records_view(input@)) == sort_by_path(orig),
            sorted_recs(records_view(out@)),
            records_view(out@).to_multiset().add(records_view(input@).to_multiset())
                == orig.to_multiset(),
        decreases input.len(),
    {
        broadcast use vstd::seq_lib::group_to_multiset_ensures;

        let ghost rem = records_view(input@);
        let ghost acc = records_view(out@);
        let x = input.remove(0);
        proof {
            assert(rem[0] == orig.skip(k)[0]);
            assert(x@ == rem[0]);
            assert(records_view(input@) =~= rem.drop_first());
            assert(rem.drop_first() =~= orig.skip(k + 1));
            assert(rem.drop_first().to_multiset() =~= rem.to_multiset().remove(rem[0])) by {
                assert(rem.remove(0) =~= rem.drop_first());
            }
            assert(rem.to_multiset().contains(rem[0]));
        }
        // find the stable insertion position
        let mut idx: usize = 0;
        while idx < out.len() && path_le_exec(&out[idx].path, &x.path)
            invariant
                0 <= idx <= out@.len(),
                records_view(out@) == acc,
                forall|a: int| 0 <= a < idx ==> path_le((#[trigger] acc[a]).path, x@.path),
            decreases out.len() - idx,
        {
            proof {
                assert(acc[idx as int] == out@[idx as int]@);
            }
            idx = idx + 1;
        }
        proof {
            assert(idx < acc.len() ==> !path_le(acc[idx as int].path, x@.path));
            lemma_insert_sorted_at(x@, acc, idx as int);
            lemma_insert_multiset(acc, idx as int, x@);
        }
        out.insert(idx, x);
        proof {
            assert(records_view(out@) =~= acc.insert(idx as int, x@));
            // sortedness of the new accumulator
            let now = acc.insert(idx as int, x@);
            assert forall|a: int, b: int|
                0 <= a < b < now.len() implies path_le((#[trigger] now[a]).path, (
            #[trigger] now[b]).path) by {
                if b < idx {
                } else if a < idx && b == idx {
                } else if a < idx && b > idx {
                    assert(now[a] == acc[a]);
                    assert(now[b] == acc[b - 1]);
                    if b - 1 == a {
                        assert(path_le(acc[a].path, x@.path));
                        assert(now[b] == acc[a]);
                        lemma_path_le_total(now[a].path, now[b].path);
                    }
                } else if a == idx {
                    assert(now[a] == x@);
                    assert(now[b] == acc[b - 1]);
                    assert(!path_le(acc[idx as int].path, x@.path));
                    lemma_path_le_total(acc[idx as int].path, x@.path);
                    assert(path_le(x@.path, acc[idx as int].path));
                    if b - 1 > idx {
                        lemma_path_le_trans(x@.path, acc[idx as int].path, acc[b - 1].path);
                    }
                } else {
                    assert(now[a] == acc[a - 1]);
                    assert(now[b] == acc[b - 1]);
                }
            }
            // the fold advances by one step
            assert(sort_fold(acc, rem) == sort_fold(insert_sorted(rem[0], acc), rem.drop_first()));
            // multiset bookkeeping
            assert(now.to_multiset().add(rem.drop_first().to_multiset()) =~= orig.to_multiset());
            k = k + 1;
        }
    }
    proof {
        assert(records_view(input@).len() == 0);
        assert(sort_fold(records_view(out@), records_view(input@)) == records_view(out@));
        assert(records_view(out@).to_multiset() =~= orig.to_multiset()) by {
            broadcast use vstd::seq_lib::group_to_multiset_ensures;

            assert(records_view(input@) =~= Seq::<FileInfoV>::empty());
        }
    }
    out
}

/// Replace each record's inode with its synthetic value: the position of its
/// original inode in first-encounter order over the (already sorted) records.
fn remap_pass(input: Vec<FileInfo>) -> (out: Vec<FileInfo>)
    ensures
        records_view(out@) == remap_records(records_view(input@)),
{
    let ghost orig = records_view(input@);
    let ghost inos = inos_of(orig);
    let mut input = input;
    let mut out: Vec<FileInfo> = Vec::new();
    let mut seen: Vec<u64> = Vec::new();
    let ghost k: int = 0;
    proof {
        lemma_firsts_distinct(inos);
        assert(records_view(input@).skip(0) =~= orig);
        assert(inos.take(0) =~= Seq::<u64>::empty());
        assert(seen@ =~= firsts(inos.take(0)));
        assert(records_view(out@) =~= remap_records(orig).take(0));
    }
    while input.len() > 0
        invariant
            0 <= k <= orig.len(),
            inos == inos_of(orig),
            records_view(input@) == orig.skip(k),
            seen@ == firsts(inos.take(k)),
            records_view(out@) == remap_records(orig).take(k),
        decreases input.len(),
    {
        let ghost rem = records_view(input@);
        proof {
            assert(rem.len() == input@.len());
            assert(k < orig.len());
        }
        let mut rec = input.remove(0);
        proof {
            assert(orig.skip(k)[0] == orig[k]);
            assert(rec@ == orig[k]);
            assert(records_view(input@) =~= rem.drop_first());
            assert(rem.drop_first() =~= orig.skip(k + 1));
            assert(inos[k] == orig[k].metadata.ino);
        }
        let v = rec.metadata.ino;
        // look for v among the already-seen original inodes
        let mut j: usize = 0;
        while j < seen.len() && seen[j] != v
            invariant
                0 <= j <= seen@.len(),
                forall|a: int| 0 <= a < j ==> seen@[a] != v,
            decreases seen.len() - j,
        {
            j = j + 1;
        }
        let ghost pre_seen = seen@;
        let new_ino: u64;
        if j < seen.len() {
            new_ino = j as u64;
            proof {
                assert(pre_seen[j as int] == v);
                assert(inos.take(k + 1).drop_last() =~= inos.take(k));
                assert(inos.take(k + 1).last() == v);
                assert(firsts(inos.take(k)).contains(v));
                assert(firsts(inos.take(k + 1)) == firsts(inos.take(k)));
                assert(seen@ =~= firsts(inos.take(k + 1)));
            }
        } else {
            new_ino = seen.len() as u64;
            seen.push(v);
            proof {
                assert(forall|a: int| 0 <= a < pre_seen.len() ==> pre_seen[a] != v);
                assert(!pre_seen.contains(v));
                assert(inos.take(k + 1).drop_last() =~= inos.take(k));
                assert(inos.take(k + 1).last() == v);
                assert(firsts(inos.take(k + 1)) == firsts(inos.take(k)).push(v));
                assert(seen@ =~= firsts(inos.take(k + 1)));
            }
        }
        proof {
            // the synthetic inode equals the position within firsts(inos)
            lemma_firsts_distinct(inos);
            lemma_firsts_take_prefix(inos, k + 1);
            let f = firsts(inos);
            let fk = firsts(inos.take(k + 1));
            assert(fk =~= f.subrange(0, fk.len() as int));
            assert(fk[new_ino as int] == v);
            assert(f[new_ino as int] == v);
            assert(f.contains(v)) by {
                assert(0 <= new_ino < f.len());
            }
            assert(f.index_of(v) == new_ino as int) by {
                let io = f.index_of(v);
                assert(f[io] == v);
                if io != new_ino as int {
                    assert(f[io] == f[new_ino as int]);
                }
            }
        }
        rec.metadata.ino = new_ino;
        let ghost pre_out = records_view(out@);
        out.push(rec);
        proof {
            assert(rec@ =~= remapped_rec(orig[k], inos));
            assert(records_view(out@) =~= pre_out.push(rec@));
            assert(remap_records(orig).take(k + 1) =~= remap_records(orig).take(k).push(
                remap_records(orig)[k],
            ));
            assert(remap_records(orig)[k] == remapped_rec(orig[k], inos));
            assert(records_view(out@) =~= remap_records(orig).take(k + 1));
            k = k + 1;
        }
    }
    proof {
        assert(remap_records(orig).take(orig.len() as int) =~= remap_records(orig));
    }
    out
}

/// Produce the canonical snapshot sequence from a raw listing.
///
/// The root record (empty relative path) is dropped, the remaining records
/// are sorted ascending by relative path (byte-wise component comparison),
/// and every inode number is replaced by a dense synthetic identifier
/// assigned by first encounter in sorted order. The result never contains
/// the root, and is always sorted.
pub fn normalize_listing(records: Vec<FileInfo>) -> (out: Vec<FileInfo>)
    ensures
        records_view(out@) == canonical_listing(records_view(records@)),
        sorted_recs(records_view(out@)),
        forall|i: int| 0 <= i < out@.len() ==> nonempty_rec(#[trigger] records_view(out@)[i]),
{
    let ghost orig = records_view(records@);
    let kept_recs = keep_nonempty(records);
    let ghost kv = records_view(kept_recs@);
    proof {
        broadcast use vstd::seq_lib::group_to_multiset_ensures;

        assert forall|i: int| 0 <= i < kv.len() implies nonempty_rec(#[trigger] kv[i]) by {
            orig.lemma_filter_pred(|r: FileInfoV| nonempty_rec(r), i);
        }
    }
    let sorted = sort_records(kept_recs);
    let ghost sv = records_view(sorted@);
    proof {
        broadcast use vstd::seq_lib::group_to_multiset_ensures;

        assert forall|i: int| 0 <= i < sv.len() implies nonempty_rec(#[trigger] sv[i]) by {
            assert(sv.to_multiset().contains(sv[i]));
            assert(kv.to_multiset().contains(sv[i]));
            assert(kv.contains(sv[i]));
            let j = choose|j: int| 0 <= j < kv.len() && kv[j] == sv[i];
            assert(nonempty_rec(kv[j]));
        }
    }
    let out = remap_pass(sorted);
    proof {
        let ov = records_view(out@);
        assert(ov == remap_records(sv));
        assert forall|i: int, j: int|
            0 <= i < j < ov.len() implies path_le((#[trigger] ov[i]).path, (
        #[trigger] ov[j]).path) by {
            assert(ov[i] == remapped_rec(sv[i], inos_of(sv)));
            assert(ov[j] == remapped_rec(sv[j], inos_of(sv)));
        }
        assert forall|i: int| 0 <= i < ov.len() implies nonempty_rec(#[trigger] ov[i]) by {
            assert(ov[i] == remapped_rec(sv[i], inos_of(sv)));
        }
    }
    out
}

} // verus!
