//! Relative paths, modelled as sequences of byte components.
//!
//! A raw name drawn from the decision source is a byte string; it is split on
//! `/` (byte 47), empty and `.` segments are dropped, and `..` segments pop the
//! previous component, clamping at the root so that the result always stays
//! inside the root.

use vstd::prelude::*;

verus! {

/// One path component is well formed when it is non-empty, contains no
/// separator byte, and is neither `.` nor `..`.
pub open spec fn wf_component(c: Seq<u8>) -> bool {
    &&& c.len() > 0
    &&& !c.contains(47u8)
    &&& c != seq![46u8]
    &&& c != seq![46u8, 46u8]
}

/// A well-formed relative path: every component is well formed.
pub open spec fn wf_path(p: Seq<Seq<u8>>) -> bool {
    forall|i: int| 0 <= i < p.len() ==> wf_component(#[trigger] p[i])
}

/// View of an executable path as a sequence of byte components.
pub open spec fn path_view(p: Seq<Vec<u8>>) -> Seq<Seq<u8>> {
    p.map_values(|c: Vec<u8>| c@)
}

/// Split a byte string on the separator byte `/`. The result always has at
/// least one (possibly empty) segment.
pub open spec fn split_segments(b: Seq<u8>) -> Seq<Seq<u8>>
    decreases b.len(),
{
    if b.len() == 0 {
        seq![Seq::<u8>::empty()]
    } else if b[0] == 47u8 {
        seq![Seq::<u8>::empty()] + split_segments(b.drop_first())
    } else {
        let rest = split_segments(b.drop_first());
        seq![seq![b[0]] + rest[0]] + rest.drop_first()
    }
}

/// Fold segments into a normalized component list: empty and `.` segments are
/// dropped, and `..` removes the last component if there is one (clamping at
/// the root otherwise).
pub open spec fn norm_fold(acc: Seq<Seq<u8>>, segs: Seq<Seq<u8>>) -> Seq<Seq<u8>>
    decreases segs.len(),
{
    if segs.len() == 0 {
        acc
    } else {
        let s = segs[0];
        let acc2 = if s.len() == 0 || s == seq![46u8] {
            acc
        } else if s == seq![46u8, 46u8] {
            if acc.len() > 0 {
                acc.drop_last()
            } else {
                acc
            }
        } else {
            acc.push(s)
        };
        norm_fold(acc2, segs.drop_first())
    }
}

/// The normalized relative path denoted by a raw byte string.
pub open spec fn normal_path_of(b: Seq<u8>) -> Seq<Seq<u8>> {
    norm_fold(Seq::empty(), split_segments(b))
}

/// No segment produced by splitting contains the separator byte.
proof fn lemma_split_no_sep(b: Seq<u8>)
    ensures
        forall|i: int|
            0 <= i < split_segments(b).len() ==> !(#[trigger] split_segments(b)[i]).contains(47u8),
    decreases b.len(),
{
    if b.len() == 0 {
    } else if b[0] == 47u8 {
        lemma_split_no_sep(b.drop_first());
    } else {
        lemma_split_no_sep(b.drop_first());
        let rest = split_segments(b.drop_first());
        assert forall|i: int|
            0 <= i < split_segments(b).len() implies !(#[trigger] split_segments(b)[i]).contains(
            47u8,
        ) by {
            if i == 0 {
                let s = seq![b[0]] + rest[0];
                assert(!rest[0].contains(47u8));
                assert forall|j: int| 0 <= j < s.len() implies s[j] != 47u8 by {
                    if j == 0 {
                    } else {
                        assert(s[j] == rest[0][j - 1]);
                    }
                }
            } else {
                assert(split_segments(b)[i] == rest[i]);
            }
        }
    }
}

/// Folding well-separated segments onto a well-formed accumulator yields a
/// well-formed path.
proof fn lemma_norm_fold_wf(acc: Seq<Seq<u8>>, segs: Seq<Seq<u8>>)
    requires
        wf_path(acc),
        forall|i: int| 0 <= i < segs.len() ==> !(#[trigger] segs[i]).contains(47u8),
    ensures
        wf_path(norm_fold(acc, segs)),
    decreases segs.len(),
{
    if segs.len() == 0 {
    } else {
        let s = segs[0];
        let acc2 = if s.len() == 0 || s == seq![46u8] {
            acc
        } else if s == seq![46u8, 46u8] {
            if acc.len() > 0 {
                acc.drop_last()
            } else {
                acc
            }
        } else {
            acc.push(s)
        };
        assert(wf_path(acc2)) by {
            if s.len() == 0 || s == seq![46u8] {
            } else if s == seq![46u8, 46u8] {
                assert forall|i: int| 0 <= i < acc2.len() implies wf_component(
                    #[trigger] acc2[i],
                ) by {
                    assert(acc2[i] == acc[i]);
                }
            } else {
                assert(!s.contains(47u8));
                assert forall|i: int| 0 <= i < acc2.len() implies wf_component(
                    #[trigger] acc2[i],
                ) by {
                    if i < acc.len() {
                        assert(acc2[i] == acc[i]);
                    }
                }
            }
        }
        assert forall|i: int| 0 <= i < segs.drop_first().len() implies !(
        #[trigger] segs.drop_first()[i]).contains(47u8) by {
            assert(segs.drop_first()[i] == segs[i + 1]);
        }
        lemma_norm_fold_wf(acc2, segs.drop_first());
    }
}

/// Every normalized path is well formed.
pub proof fn lemma_normal_path_wf(b: Seq<u8>)
    ensures
        wf_path(normal_path_of(b)),
{
    lemma_split_no_sep(b);
    lemma_norm_fold_wf(Seq::empty(), split_segments(b));
}

/// Prepend a byte sequence onto the first segment of a segment list.
spec fn prepend_first(c: Seq<u8>, ss: Seq<Seq<u8>>) -> Seq<Seq<u8>> {
    seq![c + ss[0]] + ss.drop_first()
}

/// Split a raw byte string into its separator-delimited segments.
fn split_exec(raw: &Vec<u8>) -> (out: Vec<Vec<u8>>)
    ensures
        path_view(out@) == split_segments(raw@),
{
    let mut done: Vec<Vec<u8>> = Vec::new();
    let mut cur: Vec<u8> = Vec::new();
    let mut i: usize = 0;
    proof {
        assert(raw@.skip(0) =~= raw@);
        assert(Seq::<u8>::empty() + split_segments(raw@)[0] =~= split_segments(raw@)[0]);
        assert(prepend_first(cur@, split_segments(raw@.skip(0))) =~= split_segments(raw@));
        assert(path_view(done@) + prepend_first(cur@, split_segments(raw@.skip(0)))
            =~= split_segments(raw@));
    }
    while i < raw.len()
        invariant
            i <= raw.len(),
            split_segments(raw@) == path_view(done@) + prepend_first(
                cur@,
                split_segments(raw@.skip(i as int)),
            ),
        decreases raw.len() - i,
    {
        let b = raw[i];
        let ghost tail = split_segments(raw@.skip(i as int + 1));
        let ghost dm = path_view(done@);
        let ghost cm = cur@;
        proof {
            assert(raw@.skip(i as int) =~= seq![raw@[i as int]] + raw@.skip(i as int + 1));
            assert(raw@.skip(i as int)[0] == raw@[i as int]);
            assert(raw@.skip(i as int).drop_first() =~= raw@.skip(i as int + 1));
        }
        if b == 47u8 {
            proof {
                assert(split_segments(raw@.skip(i as int)) =~= seq![Seq::<u8>::empty()] + tail);
                assert(prepend_first(cm, seq![Seq::<u8>::empty()] + tail) =~= seq![cm] + tail);
                assert(prepend_first(Seq::empty(), tail) =~= tail) by {
                    assert(Seq::<u8>::empty() + tail[0] =~= tail[0]);
                    assert(seq![tail[0]] + tail.drop_first() =~= tail);
                }
            }
            let finished = cur;
            cur = Vec::new();
            done.push(finished);
            proof {
                assert(path_view(done@) =~= dm.push(cm));
                assert(path_view(done@) + prepend_first(cur@, tail) =~= dm + (seq![cm] + tail));
            }
        } else {
            proof {
                assert(split_segments(raw@.skip(i as int)) =~= seq![seq![b] + tail[0]]
                    + tail.drop_first());
                assert((seq![seq![b] + tail[0]] + tail.drop_first()).drop_first()
                    =~= tail.drop_first());
                assert(cm + (seq![seq![b] + tail[0]] + tail.drop_first())[0] =~= cm.push(b)
                    + tail[0]);
                assert(prepend_first(cm, split_segments(raw@.skip(i as int))) =~= prepend_first(
                    cm.push(b),
                    tail,
                ));
            }
            cur.push(b);
        }
        i = i + 1;
    }
    proof {
        assert(raw@.skip(raw@.len() as int) =~= Seq::<u8>::empty());
        assert(prepend_first(cur@, seq![Seq::<u8>::empty()]) =~= seq![cur@]) by {
            assert(cur@ + Seq::<u8>::empty() =~= cur@);
            assert(seq![Seq::<u8>::empty()].drop_first() =~= Seq::<Seq<u8>>::empty());
            assert(seq![cur@] + Seq::<Seq<u8>>::empty() =~= seq![cur@]);
        }
    }
    let ghost dm = path_view(done@);
    let ghost cm = cur@;
    done.push(cur);
    proof {
        assert(path_view(done@) =~= dm.push(cm));
        assert(path_view(done@) =~= dm + seq![cm]);
    }
    done
}

/// Normalize a raw relative path drawn from the decision source: split on the
/// separator, drop empty and `.` segments, and let `..` pop the previous
/// component, clamping at the root. The result never escapes the root.
pub fn normalize_rel_path(raw: &Vec<u8>) -> (out: Vec<Vec<u8>>)
    ensures
        path_view(out@) == normal_path_of(raw@),
        wf_path(path_view(out@)),
{
    let segs = split_exec(raw);
    let mut acc: Vec<Vec<u8>> = Vec::new();
    let mut j: usize = 0;
    proof {
        assert(split_segments(raw@).skip(0) =~= split_segments(raw@));
        assert(path_view(acc@) =~= Seq::<Seq<u8>>::empty());
    }
    while j < segs.len()
        invariant
            j <= segs.len(),
            path_view(segs@) == split_segments(raw@),
            normal_path_of(raw@) == norm_fold(
                path_view(acc@),
                split_segments(raw@).skip(j as int),
            ),
        decreases segs.len() - j,
    {
        let s = &segs[j];
        let ghost segs_rest = split_segments(raw@).skip(j as int);
        let ghost pre = path_view(acc@);
        proof {
            assert(segs_rest[0] == path_view(segs@)[j as int]);
            assert(segs_rest.drop_first() =~= split_segments(raw@).skip(j as int + 1));
        }
        let is_empty = s.len() == 0;
        let is_dot = s.len() == 1 && s[0] == 46u8;
        let is_dotdot = s.len() == 2 && s[0] == 46u8 && s[1] == 46u8;
        proof {
            assert(is_dot == (s@ == seq![46u8])) by {
                if s@.len() == 1 && s@[0] == 46u8 {
                    assert(s@ =~= seq![46u8]);
                }
            }
            assert(is_dotdot == (s@ == seq![46u8, 46u8])) by {
                if s@.len() == 2 && s@[0] == 46u8 && s@[1] == 46u8 {
                    assert(s@ =~= seq![46u8, 46u8]);
                }
            }
        }
        if is_empty || is_dot {
            proof {
                assert(path_view(acc@) == pre);
            }
        } else if is_dotdot {
            if acc.len() > 0 {
                acc.pop();
                proof {
                    assert(path_view(acc@) =~= pre.drop_last());
                }
            }
        } else {
            acc.push((*s).clone());
            proof {
                assert(path_view(acc@) =~= pre.push(s@));
            }
        }
        j = j + 1;
    }
    proof {
        assert(split_segments(raw@).skip(split_segments(raw@).len() as int)
            =~= Seq::<Seq<u8>>::empty());
        lemma_normal_path_wf(raw@);
    }
    acc
}

} // verus!
