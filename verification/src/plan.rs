//! The tree generator's decision logic.
//!
//! `DirBuilder::create_plan` drives the decision source and produces the full
//! construction plan of one randomized tree: for every entry its normalized
//! relative path, kind, mode bits, content bytes, link target and
//! modification time. The plan is a pure function of the configuration, the
//! decision bytes and the reference time; path safety, collision avoidance
//! and the link-pool invariants are proved of every plan. Materializing the
//! plan on a filesystem is left to the caller.

use vstd::prelude::*;
use crate::draws::bytes_draw;
use crate::draws::draw_bytes;
use crate::draws::draw_index;
use crate::draws::draw_int;
use crate::draws::index_draw;
use crate::draws::int_draw;
use crate::draws::ubytes;
use crate::order::path_eq;
use crate::paths::normal_path_of;
use crate::paths::normalize_rel_path;
use crate::paths::path_view;
use crate::paths::wf_path;
use crate::types::FileType;
use crate::types::GenError;

verus! {

/// One planned entry of a generated tree. `mode` is meaningful for every
/// kind but sockets and links (where the OS decides); `contents` is used by
/// regular files; `target` by symlinks and hard links. The modification time
/// is drawn for every entry and applied to every kind but links.
#[derive(Debug, Clone, PartialEq, Eq)]
pub struct PlannedEntry {
    pub path: Vec<Vec<u8>>,
    pub kind: FileType,
    pub mode: u32,
    pub contents: Vec<u8>,
    pub target: Vec<Vec<u8>>,
    pub mtime_secs: u64,
    pub mtime_nanos: u32,
}

/// Mathematical view of a planned entry.
#[verifier::ext_equal]
pub struct PlannedEntryV {
    pub path: Seq<Seq<u8>>,
    pub kind: FileType,
    pub mode: u32,
    pub contents: Seq<u8>,
    pub target: Seq<Seq<u8>>,
    pub mtime_secs: u64,
    pub mtime_nanos: u32,
}

impl View for PlannedEntry {
    type V = PlannedEntryV;

    open spec fn view(&self) -> PlannedEntryV {
        PlannedEntryV {
            path: path_view(self.path@),
            kind: self.kind,
            mode: self.mode,
            contents: self.contents@,
            target: path_view(self.target@),
            mtime_secs: self.mtime_secs,
            mtime_nanos: self.mtime_nanos,
        }
    }
}

/// View of a plan.
pub open spec fn entries_view(s: Seq<PlannedEntry>) -> Seq<PlannedEntryV> {
    s.map_values(|e: PlannedEntry| e@)
}

/// View of a list of paths (the link pool, or the directory set).
pub open spec fn paths_view(s: Seq<Vec<Vec<u8>>>) -> Seq<Seq<Seq<u8>>> {
    s.map_values(|p: Vec<Vec<u8>>| path_view(p@))
}

/// Generator state after some number of iterations: the directories that
/// exist (the root is the empty path), the link pool of non-directory entry
/// paths in creation order, and the planned entries so far.
#[verifier::ext_equal]
pub struct GenStateV {
    pub dirs: Seq<Seq<Seq<u8>>>,
    pub pool: Seq<Seq<Seq<u8>>>,
    pub entries: Seq<PlannedEntryV>,
}

/// The state before any entry is planned: only the root directory exists.
pub open spec fn init_state() -> GenStateV {
    GenStateV { dirs: seq![Seq::<Seq<u8>>::empty()], pool: Seq::empty(), entries: Seq::empty() }
}

/// Name bytes with every NUL removed, as the decision source's C-string draw
/// yields them.
pub open spec fn strip_nul(s: Seq<u8>) -> Seq<u8> {
    s.filter(|b: u8| b != 0)
}

/// Outcome of drawing `l` lowercase letters, appended to `acc`.
pub open spec fn letters_fold(acc: Seq<u8>, bytes: Seq<u8>, l: nat) -> (Option<Seq<u8>>, Seq<u8>)
    decreases l,
{
    if l == 0 {
        (Some(acc), bytes)
    } else {
        let d = int_draw(bytes, 97, 122);
        match d.0 {
            Option::None => (Option::None, d.1),
            Option::Some(c) => letters_fold(acc.push(c as u8), d.1, (l - 1) as nat),
        }
    }
}

/// Outcome of drawing one candidate name: with printable names a length in
/// `[1, 10]` and that many lowercase letters; otherwise an arbitrary byte
/// string with NUL bytes removed.
pub open spec fn name_step(bytes: Seq<u8>, printable: bool) -> (Option<Seq<u8>>, Seq<u8>) {
    if printable {
        let d = int_draw(bytes, 1, 10);
        match d.0 {
            Option::None => (Option::None, d.1),
            Option::Some(l) => letters_fold(Seq::empty(), d.1, l as nat),
        }
    } else {
        let d = bytes_draw(bytes);
        match d.0 {
            Option::None => (Option::None, d.1),
            Option::Some(s) => (Option::Some(strip_nul(s)), d.1),
        }
    }
}

/// Outcome of choosing the entry kind uniformly from the configured types,
/// coercing a link kind to `Regular` while the link pool is empty.
pub open spec fn kind_step(bytes: Seq<u8>, types: Seq<FileType>, pool_empty: bool) -> (
    Option<FileType>,
    Seq<u8>,
) {
    let d = index_draw(bytes, types.len() as usize);
    match d.0 {
        Option::None => (Option::None, d.1),
        Option::Some(i) => {
            // the source's contract keeps i below the bound; the guard keeps
            // this function total
            let kind = types[if i < types.len() {
                i as int
            } else {
                0
            }];
            let kind2 = if (kind == FileType::Symlink || kind == FileType::HardLink)
                && pool_empty {
                FileType::Regular
            } else {
                kind
            };
            (Option::Some(kind2), d.1)
        },
    }
}

/// Outcome of drawing the modification time: whole seconds uniform in
/// `[0, now + 86400]`, nanoseconds uniform in `[0, 999_999_999]`.
pub open spec fn time_step(bytes: Seq<u8>, now: u64) -> (Option<(u64, u32)>, Seq<u8>) {
    let d = int_draw(bytes, 0, (now + 86400) as u64);
    match d.0 {
        Option::None => (Option::None, d.1),
        Option::Some(secs) => {
            let d2 = int_draw(d.1, 0, 999_999_999);
            match d2.0 {
                Option::None => (Option::None, d2.1),
                Option::Some(nanos) => (Option::Some((secs, nanos as u32)), d2.1),
            }
        },
    }
}

/// Outcome of the per-kind draws: mode bits, content bytes, and link target.
pub open spec fn action_step(bytes: Seq<u8>, kind: FileType, pool: Seq<Seq<Seq<u8>>>) -> (
    Option<(u32, Seq<u8>, Seq<Seq<u8>>)>,
    Seq<u8>,
) {
    if kind == FileType::Regular {
        let d = int_draw(bytes, 0, 0o777);
        match d.0 {
            Option::None => (Option::None, d.1),
            Option::Some(m) => {
                let d2 = bytes_draw(d.1);
                match d2.0 {
                    Option::None => (Option::None, d2.1),
                    Option::Some(c) => (
                        Option::Some((((m | 0o400) as u32), c, Seq::<Seq<u8>>::empty())),
                        d2.1,
                    ),
                }
            },
        }
    } else if kind == FileType::Directory {
        let d = int_draw(bytes, 0, 0o777);
        match d.0 {
            Option::None => (Option::None, d.1),
            Option::Some(m) => (
                Option::Some((((m | 0o500) as u32), Seq::<u8>::empty(), Seq::<Seq<u8>>::empty())),
                d.1,
            ),
        }
    } else if kind == FileType::Fifo {
        let d = int_draw(bytes, 0, 0o777);
        match d.0 {
            Option::None => (Option::None, d.1),
            Option::Some(m) => (
                Option::Some((((m | 0o400) as u32), Seq::<u8>::empty(), Seq::<Seq<u8>>::empty())),
                d.1,
            ),
        }
    } else if kind == FileType::Socket {
        (Option::Some((0u32, Seq::<u8>::empty(), Seq::<Seq<u8>>::empty())), bytes)
    } else if kind == FileType::BlockDevice || kind == FileType::CharDevice {
        let d = int_draw(bytes, 0o400, 0o777);
        match d.0 {
            Option::None => (Option::None, d.1),
            Option::Some(m) => (
                Option::Some(((m as u32), Seq::<u8>::empty(), Seq::<Seq<u8>>::empty())),
                d.1,
            ),
        }
    } else {
        let d = index_draw(bytes, pool.len() as usize);
        match d.0 {
            Option::None => (Option::None, d.1),
            Option::Some(i) => (
                Option::Some(
                    (
                        0u32,
                        Seq::<u8>::empty(),
                        // the source's contract keeps i below the bound; the
                        // guard keeps this function total
                        pool[if i < pool.len() {
                            i as int
                        } else {
                            0
                        }],
                    ),
                ),
                d.1,
            ),
        }
    }
}

/// The directories after ensuring every proper prefix of `p` of length up to
/// `l` exists, appended in increasing length where missing.
pub open spec fn add_parents_upto(dirs: Seq<Seq<Seq<u8>>>, p: Seq<Seq<u8>>, l: nat) -> Seq<
    Seq<Seq<u8>>,
>
    decreases l,
{
    if l == 0 {
        dirs
    } else {
        let d = add_parents_upto(dirs, p, (l - 1) as nat);
        let pref = p.take(l as int);
        if d.contains(pref) {
            d
        } else {
            d.push(pref)
        }
    }
}

/// The directories after ensuring every proper prefix of `p` exists.
pub open spec fn add_parents(dirs: Seq<Seq<Seq<u8>>>, p: Seq<Seq<u8>>) -> Seq<Seq<Seq<u8>>> {
    add_parents_upto(dirs, p, (p.len() - 1) as nat)
}

/// The state after appending entry `e`, with `dirs2` already holding the
/// entry's parent directories.
pub open spec fn step_state(st: GenStateV, e: PlannedEntryV, dirs2: Seq<Seq<Seq<u8>>>) -> GenStateV {
    GenStateV {
        dirs: if e.kind == FileType::Directory {
            dirs2.push(e.path)
        } else {
            dirs2
        },
        pool: if e.kind == FileType::Directory {
            st.pool
        } else {
            st.pool.push(e.path)
        },
        entries: st.entries.push(e),
    }
}

/// Some proper prefix of `p` already names a non-directory entry, so no
/// filesystem could create `p`'s parent directories.
pub open spec fn prefix_blocked(pool: Seq<Seq<Seq<u8>>>, p: Seq<Seq<u8>>) -> bool {
    exists|l: int| 1 <= l < p.len() && pool.contains(#[trigger] p.take(l))
}

/// One generation iteration: draw a name, normalize it, skip collisions,
/// refuse paths through non-directories, then draw kind, time and per-kind
/// data, and extend the state.
pub open spec fn entry_step(
    types: Seq<FileType>,
    printable: bool,
    st: GenStateV,
    bytes: Seq<u8>,
    now: u64,
) -> (Result<GenStateV, GenError>, Seq<u8>) {
    let n = name_step(bytes, printable);
    match n.0 {
        Option::None => (Result::Err(GenError::ExhaustedInput), n.1),
        Option::Some(name) => {
            if name.len() == 0 {
                (Result::Ok(st), n.1)
            } else {
                let p = normal_path_of(name);
                if st.dirs.contains(p) || st.pool.contains(p) {
                    (Result::Ok(st), n.1)
                } else if prefix_blocked(st.pool, p) {
                    (Result::Err(GenError::FilesystemOperationFailed), n.1)
                } else {
                    let dirs2 = add_parents(st.dirs, p);
                    let k = kind_step(n.1, types, st.pool.len() == 0);
                    match k.0 {
                        Option::None => (Result::Err(GenError::ExhaustedInput), k.1),
                        Option::Some(kind) => {
                            let t = time_step(k.1, now);
                            match t.0 {
                                Option::None => (Result::Err(GenError::ExhaustedInput), t.1),
                                Option::Some(mt) => {
                                    let a = action_step(t.1, kind, st.pool);
                                    match a.0 {
                                        Option::None => (
                                            Result::Err(GenError::ExhaustedInput),
                                            a.1,
                                        ),
                                        Option::Some(act) => {
                                            let e = PlannedEntryV {
                                                path: p,
                                                kind: kind,
                                                mode: act.0,
                                                contents: act.1,
                                                target: act.2,
                                                mtime_secs: mt.0,
                                                mtime_nanos: mt.1,
                                            };
                                            (Result::Ok(step_state(st, e, dirs2)), a.1)
                                        },
                                    }
                                },
                            }
                        },
                    }
                }
            }
        },
    }
}

/// `k` further generation iterations from `st`.
pub open spec fn run_steps(
    types: Seq<FileType>,
    printable: bool,
    st: GenStateV,
    bytes: Seq<u8>,
    now: u64,
    k: nat,
) -> (Result<GenStateV, GenError>, Seq<u8>)
    decreases k,
{
    if k == 0 {
        (Result::Ok(st), bytes)
    } else {
        let s = entry_step(types, printable, st, bytes, now);
        match s.0 {
            Result::Err(e) => (Result::Err(e), s.1),
            Result::Ok(st2) => run_steps(types, printable, st2, s.1, now, (k - 1) as nat),
        }
    }
}

/// The full generation outcome: the desired entry count is drawn uniformly
/// in `[0, 10]`, then that many iterations run from the initial state. The
/// whole outcome is a function of the configuration, the decision bytes and
/// the reference time alone.
pub open spec fn plan_outcome(types: Seq<FileType>, printable: bool, bytes: Seq<u8>, now: u64) -> (
    Result<GenStateV, GenError>,
    Seq<u8>,
) {
    let d = int_draw(bytes, 0, 10);
    match d.0 {
        Option::None => (Result::Err(GenError::ExhaustedInput), d.1),
        Option::Some(n) => run_steps(types, printable, init_state(), d.1, now, n as nat),
    }
}

/// Every planned entry has a well-formed, non-empty relative path: it
/// resolves strictly inside the root.
pub open spec fn plan_paths_wf(es: Seq<PlannedEntryV>) -> bool {
    forall|i: int|
        0 <= i < es.len() ==> wf_path((#[trigger] es[i]).path) && es[i].path.len() > 0
}

/// No two planned entries share a path.
pub open spec fn plan_paths_distinct(es: Seq<PlannedEntryV>) -> bool {
    forall|i: int, j: int|
        0 <= i < j < es.len() ==> (#[trigger] es[i]).path != (#[trigger] es[j]).path
}

/// `add_parents_upto` extends the directory list in place: what was there
/// stays at its index, and everything appended is a proper prefix of `p`.
proof fn lemma_add_parents_upto_contains(dirs: Seq<Seq<Seq<u8>>>, p: Seq<Seq<u8>>, l: nat)
    ensures
        dirs.len() <= add_parents_upto(dirs, p, l).len(),
        forall|k: int|
            0 <= k < dirs.len() ==> #[trigger] add_parents_upto(dirs, p, l)[k] == dirs[k],
        forall|k: int|
            dirs.len() <= k < add_parents_upto(dirs, p, l).len() ==> exists|m: int|
                1 <= m <= l && #[trigger] add_parents_upto(dirs, p, l)[k] == p.take(m),
    decreases l,
{
    if l == 0 {
    } else {
        lemma_add_parents_upto_contains(dirs, p, (l - 1) as nat);
        let d = add_parents_upto(dirs, p, (l - 1) as nat);
        let d2 = add_parents_upto(dirs, p, l);
        let pref = p.take(l as int);
        if d.contains(pref) {
        } else {
            assert forall|k: int|
                dirs.len() <= k < d2.len() implies exists|m: int|
                1 <= m <= l && #[trigger] d2[k] == p.take(m) by {
                if k < d.len() {
                    assert(d2[k] == d[k]);
                    let m = choose|m: int| 1 <= m <= l - 1 && #[trigger] d[k] == p.take(m);
                    assert(1 <= m <= l && d2[k] == p.take(m));
                } else {
                    assert(d2[k] == pref);
                    assert(1 <= l as int <= l && d2[k] == p.take(l as int));
                }
            }
        }
    }
}

/// Remove every NUL byte from a drawn name, keeping order.
fn strip_zeros(v: &Vec<u8>) -> (out: Vec<u8>)
    ensures
        out@ == strip_nul(v@),
{
    let mut out: Vec<u8> = Vec::new();
    let mut k: usize = 0;
    proof {
        assert(v@.take(0) =~= Seq::<u8>::empty());
        assert(strip_nul(v@.take(0)) =~= Seq::<u8>::empty()) by {
            reveal(Seq::filter);
        }
        assert(out@ =~= strip_nul(v@.take(0)));
    }
    while k < v.len()
        invariant
            k <= v@.len(),
            out@ == strip_nul(v@.take(k as int)),
        decreases v.len() - k,
    {
        let b = v[k];
        proof {
            assert(v@.take(k as int + 1).drop_last() =~= v@.take(k as int));
            assert(v@.take(k as int + 1).last() == v@[k as int]);
            reveal(Seq::filter);
        }
        if b != 0 {
            out.push(b);
            proof {
                assert(out@ =~= strip_nul(v@.take(k as int + 1)));
            }
        } else {
            proof {
                assert(out@ =~= strip_nul(v@.take(k as int + 1)));
            }
        }
        k = k + 1;
    }
    proof {
        assert(v@.take(v@.len() as int) =~= v@);
    }
    out
}

/// Draw one candidate entry name from the decision source.
fn draw_name(u: &mut arbitrary::Unstructured, printable: bool) -> (r: Result<Vec<u8>, GenError>)
    ensures
        ubytes(*final(u)) == name_step(ubytes(*old(u)), printable).1,
        match r {
            Result::Ok(v) => name_step(ubytes(*old(u)), printable).0 == Option::Some(v@),
            Result::Err(e) => name_step(ubytes(*old(u)), printable).0 is None && e
                == GenError::ExhaustedInput,
        },
{
    let ghost b0 = ubytes(*old(u));
    if printable {
        let l: u64 = match draw_int(u, 1, 10) {
            Result::Ok(l) => l,
            Result::Err(_) => {
                return Result::Err(GenError::ExhaustedInput);
            },
        };
        let mut acc: Vec<u8> = Vec::new();
        let mut i: u64 = 0;
        proof {
            assert(acc@ =~= Seq::<u8>::empty());
            assert(name_step(b0, true) == letters_fold(acc@, ubytes(*u), (l - i) as nat));
        }
        #[verifier::loop_isolation(false)]
        while i < l
            invariant
                i <= l,
                name_step(b0, true) == letters_fold(acc@, ubytes(*u), (l - i) as nat),
            decreases l - i,
        {
            let ghost bi = ubytes(*u);
            match draw_int(u, 97, 122) {
                Result::Ok(c) => {
                    proof {
                        assert(letters_fold(acc@, bi, (l - i) as nat) == letters_fold(
                            acc@.push(c as u8),
                            ubytes(*u),
                            (l - i - 1) as nat,
                        ));
                    }
                    acc.push(c as u8);
                },
                Result::Err(_) => {
                    proof {
                        assert(letters_fold(acc@, bi, (l - i) as nat).0 is None);
                        assert(letters_fold(acc@, bi, (l - i) as nat).1 == ubytes(*u));
                    }
                    return Result::Err(GenError::ExhaustedInput);
                },
            }
            i = i + 1;
        }
        proof {
            assert((l - i) as nat == 0);
            assert(letters_fold(acc@, ubytes(*u), (l - i) as nat) == (
                Option::Some(acc@),
                ubytes(*u),
            ));
        }
        Result::Ok(acc)
    } else {
        match draw_bytes(u) {
            Result::Ok(v) => Result::Ok(strip_zeros(&v)),
            Result::Err(_) => Result::Err(GenError::ExhaustedInput),
        }
    }
}

/// Choose the entry kind from the configured types, coercing links to
/// `Regular` while the link pool is empty.
fn pick_kind(u: &mut arbitrary::Unstructured, types: &Vec<FileType>, pool_empty: bool) -> (r:
    Result<FileType, GenError>)
    requires
        types@.len() > 0,
    ensures
        ubytes(*final(u)) == kind_step(ubytes(*old(u)), types@, pool_empty).1,
        match r {
            Result::Ok(k) => kind_step(ubytes(*old(u)), types@, pool_empty).0 == Option::Some(k),
            Result::Err(e) => kind_step(ubytes(*old(u)), types@, pool_empty).0 is None && e
                == GenError::ExhaustedInput,
        },
{
    match draw_index(u, types.len()) {
        Result::Ok(i) => {
            let kind = types[i];
            let kind2 = if (kind == FileType::Symlink || kind == FileType::HardLink)
                && pool_empty {
                FileType::Regular
            } else {
                kind
            };
            Result::Ok(kind2)
        },
        Result::Err(_) => Result::Err(GenError::ExhaustedInput),
    }
}

/// Draw the modification time for an entry.
fn draw_time(u: &mut arbitrary::Unstructured, now: u64) -> (r: Result<(u64, u32), GenError>)
    requires
        now + 86400 <= u64::MAX,
    ensures
        ubytes(*final(u)) == time_step(ubytes(*old(u)), now).1,
        match r {
            Result::Ok(t) => time_step(ubytes(*old(u)), now).0 == Option::Some(t),
            Result::Err(e) => time_step(ubytes(*old(u)), now).0 is None && e
                == GenError::ExhaustedInput,
        },
{
    let secs: u64 = match draw_int(u, 0, now + 86400) {
        Result::Ok(s) => s,
        Result::Err(_) => {
            return Result::Err(GenError::ExhaustedInput);
        },
    };
    match draw_int(u, 0, 999_999_999) {
        Result::Ok(n) => Result::Ok((secs, n as u32)),
        Result::Err(_) => Result::Err(GenError::ExhaustedInput),
    }
}

/// Copy a path, component by component.
fn clone_path(p: &Vec<Vec<u8>>) -> (out: Vec<Vec<u8>>)
    ensures
        path_view(out@) == path_view(p@),
{
    let mut out: Vec<Vec<u8>> = Vec::new();
    let mut i: usize = 0;
    while i < p.len()
        invariant
            i <= p@.len(),
            out@.len() == i,
            forall|j: int| 0 <= j < i ==> path_view(out@)[j] == path_view(p@)[j],
        decreases p.len() - i,
    {
        let c = (*(&p[i])).clone();
        proof {
            assert(c@ == p@[i as int]@);
        }
        out.push(c);
        i = i + 1;
    }
    proof {
        assert(path_view(out@) =~= path_view(p@));
    }
    out
}

/// Does the list contain this path?
fn contains_path(list: &Vec<Vec<Vec<u8>>>, p: &Vec<Vec<u8>>) -> (r: bool)
    ensures
        r == paths_view(list@).contains(path_view(p@)),
{
    let mut i: usize = 0;
    while i < list.len()
        invariant
            i <= list@.len(),
            forall|j: int| 0 <= j < i ==> paths_view(list@)[j] != path_view(p@),
        decreases list.len() - i,
    {
        if path_eq(&list[i], p) {
            proof {
                assert(paths_view(list@)[i as int] == path_view(p@));
            }
            return true;
        }
        i = i + 1;
    }
    proof {
        if paths_view(list@).contains(path_view(p@)) {
            let j = choose|j: int|
                0 <= j < paths_view(list@).len() && paths_view(list@)[j] == path_view(p@);
            assert(false);
        }
    }
    false
}

/// Draw the per-kind data: mode bits, contents, and link target.
fn draw_action(u: &mut arbitrary::Unstructured, kind: FileType, pool: &Vec<Vec<Vec<u8>>>) -> (r:
    Result<(u32, Vec<u8>, Vec<Vec<u8>>), GenError>)
    requires
        (kind == FileType::Symlink || kind == FileType::HardLink) ==> pool@.len() > 0,
    ensures
        ubytes(*final(u)) == action_step(ubytes(*old(u)), kind, paths_view(pool@)).1,
        match r {
            Result::Ok(a) => action_step(ubytes(*old(u)), kind, paths_view(pool@)).0
                == Option::Some((a.0, a.1@, path_view(a.2@))),
            Result::Err(e) => action_step(ubytes(*old(u)), kind, paths_view(pool@)).0 is None && e
                == GenError::ExhaustedInput,
        },
{
    proof {
        assert(path_view(Seq::<Vec<u8>>::empty()) =~= Seq::<Seq<u8>>::empty());
    }
    match kind {
        FileType::Regular => {
            let m: u64 = match draw_int(u, 0, 0o777) {
                Result::Ok(m) => m,
                Result::Err(_) => {
                    return Result::Err(GenError::ExhaustedInput);
                },
            };
            match draw_bytes(u) {
                Result::Ok(c) => Result::Ok((((m | 0o400) as u32), c, Vec::new())),
                Result::Err(_) => Result::Err(GenError::ExhaustedInput),
            }
        },
        FileType::Directory => {
            match draw_int(u, 0, 0o777) {
                Result::Ok(m) => Result::Ok((((m | 0o500) as u32), Vec::new(), Vec::new())),
                Result::Err(_) => Result::Err(GenError::ExhaustedInput),
            }
        },
        FileType::Fifo => {
            match draw_int(u, 0, 0o777) {
                Result::Ok(m) => Result::Ok((((m | 0o400) as u32), Vec::new(), Vec::new())),
                Result::Err(_) => Result::Err(GenError::ExhaustedInput),
            }
        },
        FileType::Socket => Result::Ok((0u32, Vec::new(), Vec::new())),
        FileType::BlockDevice => {
            match draw_int(u, 0o400, 0o777) {
                Result::Ok(m) => Result::Ok(((m as u32), Vec::new(), Vec::new())),
                Result::Err(_) => Result::Err(GenError::ExhaustedInput),
            }
        },
        FileType::CharDevice => {
            match draw_int(u, 0o400, 0o777) {
                Result::Ok(m) => Result::Ok(((m as u32), Vec::new(), Vec::new())),
                Result::Err(_) => Result::Err(GenError::ExhaustedInput),
            }
        },
        FileType::Symlink | FileType::HardLink => {
            match draw_index(u, pool.len()) {
                Result::Ok(i) => {
                    let target = clone_path(&pool[i]);
                    proof {
                        assert(path_view(target@) == paths_view(pool@)[i as int]);
                    }
                    Result::Ok((0u32, Vec::new(), target))
                },
                Result::Err(_) => Result::Err(GenError::ExhaustedInput),
            }
        },
    }
}


/// Does some proper prefix of `p` already name a non-directory entry?
fn check_prefix_blocked(pool: &Vec<Vec<Vec<u8>>>, p: &Vec<Vec<u8>>) -> (r: bool)
    ensures
        r == prefix_blocked(paths_view(pool@), path_view(p@)),
{
    let mut pref: Vec<Vec<u8>> = Vec::new();
    let mut l: usize = 1;
    proof {
        assert(path_view(pref@) =~= path_view(p@).take(0));
    }
    #[verifier::loop_isolation(false)]
    while l < p.len()
        invariant
            1 <= l,
            l - 1 <= p@.len(),
            path_view(pref@) == path_view(p@).take(l - 1),
            forall|m: int| 1 <= m < l ==> !paths_view(pool@).contains(#[trigger] path_view(p@).take(m)),
        decreases p.len() - l,
    {
        let c = (*(&p[l - 1])).clone();
        proof {
            assert(c@ == p@[l - 1]@);
        }
        pref.push(c);
        proof {
            assert(path_view(pref@) =~= path_view(p@).take(l as int));
        }
        if contains_path(pool, &pref) {
            proof {
                assert(1 <= l as int);
                assert((l as int) < path_view(p@).len());
                assert(paths_view(pool@).contains(path_view(p@).take(l as int)));
            }
            return true;
        }
        l = l + 1;
    }
    proof {
        if prefix_blocked(paths_view(pool@), path_view(p@)) {
            let m = choose|m: int|
                1 <= m < path_view(p@).len() && paths_view(pool@).contains(
                    #[trigger] path_view(p@).take(m),
                );
            assert(false);
        }
    }
    false
}

/// Ensure every proper prefix of `p` is recorded as a directory, appending
/// the missing ones in increasing length.
fn add_parents_exec(dirs: &mut Vec<Vec<Vec<u8>>>, p: &Vec<Vec<u8>>)
    requires
        p@.len() >= 1,
    ensures
        paths_view(final(dirs)@) == add_parents(paths_view(old(dirs)@), path_view(p@)),
{
    let ghost d0 = paths_view(old(dirs)@);
    let mut pref: Vec<Vec<u8>> = Vec::new();
    let mut l: usize = 1;
    proof {
        assert(path_view(pref@) =~= path_view(p@).take(0));
        assert(paths_view(dirs@) == add_parents_upto(d0, path_view(p@), 0));
    }
    #[verifier::loop_isolation(false)]
    while l < p.len()
        invariant
            1 <= l,
            l <= p@.len(),
            path_view(pref@) == path_view(p@).take(l - 1),
            paths_view(dirs@) == add_parents_upto(d0, path_view(p@), (l - 1) as nat),
        decreases p.len() - l,
    {
        let c = (*(&p[l - 1])).clone();
        proof {
            assert(c@ == p@[l - 1]@);
        }
        pref.push(c);
        proof {
            assert(path_view(pref@) =~= path_view(p@).take(l as int));
        }
        let ghost before = paths_view(dirs@);
        if !contains_path(dirs, &pref) {
            dirs.push(clone_path(&pref));
            proof {
                assert(paths_view(dirs@) =~= before.push(path_view(p@).take(l as int)));
            }
        }
        proof {
            assert(paths_view(dirs@) == add_parents_upto(d0, path_view(p@), l as nat));
        }
        l = l + 1;
    }
    proof {
        assert(l == p@.len());
        assert(paths_view(dirs@) == add_parents(d0, path_view(p@)));
    }
}

/// The generator state that a set of concrete vectors denotes.
pub open spec fn cur_state(
    dirs: Seq<Vec<Vec<u8>>>,
    pool: Seq<Vec<Vec<u8>>>,
    entries: Seq<PlannedEntry>,
) -> GenStateV {
    GenStateV { dirs: paths_view(dirs), pool: paths_view(pool), entries: entries_view(entries) }
}

impl crate::types::DirBuilder {
    /// Plan one randomized tree: draw an entry count in `[0, 10]` and for
    /// each entry a name, kind, mode, content, target and modification time
    /// from the decision source, skipping colliding paths. The outcome —
    /// the plan and the bytes left — is exactly `plan_outcome` of the
    /// configuration, the initial buffer and the reference time, so two runs
    /// over the same inputs plan the same tree. Every planned path is
    /// normalized, non-empty and unique, and the first entry is never a
    /// link.
    #[verifier::spinoff_prover]
    #[verifier::rlimit(100)]
    pub fn create_plan(
        &self,
        u: &mut arbitrary::Unstructured,
        now_secs: u64,
    ) -> (r: Result<Vec<PlannedEntry>, GenError>)
        requires
            self.file_types@.len() > 0,
            now_secs + 86400 <= u64::MAX,
        ensures
            ubytes(*final(u)) == plan_outcome(
                self.file_types@,
                self.printable_names,
                ubytes(*old(u)),
                now_secs,
            ).1,
            match (
                r,
                plan_outcome(self.file_types@, self.printable_names, ubytes(*old(u)), now_secs).0,
            ) {
                (Result::Ok(plan), Result::Ok(st)) => entries_view(plan@) == st.entries,
                (Result::Err(e1), Result::Err(e2)) => e1 == e2,
                _ => false,
            },
            match r {
                Result::Ok(plan) => plan_paths_wf(entries_view(plan@)) && plan_paths_distinct(
                    entries_view(plan@),
                ) && (plan@.len() > 0 ==> entries_view(plan@)[0].kind != FileType::Symlink
                    && entries_view(plan@)[0].kind != FileType::HardLink),
                Result::Err(_) => true,
            },
    {
        let ghost typesv = self.file_types@;
        let ghost pn = self.printable_names;
        let ghost b0 = ubytes(*old(u));
        let n: u64 = match draw_int(u, 0, 10) {
            Result::Ok(n) => n,
            Result::Err(_) => {
                return Result::Err(GenError::ExhaustedInput);
            },
        };
        let ghost bstart = ubytes(*u);
        let mut dirs: Vec<Vec<Vec<u8>>> = Vec::new();
        dirs.push(Vec::new());
        let mut pool: Vec<Vec<Vec<u8>>> = Vec::new();
        let mut entries: Vec<PlannedEntry> = Vec::new();
        proof {
            assert(path_view(Seq::<Vec<u8>>::empty()) =~= Seq::<Seq<u8>>::empty());
            assert(paths_view(dirs@) =~~= init_state().dirs);
            assert(paths_view(pool@) =~~= init_state().pool);
            assert(entries_view(entries@) =~~= init_state().entries);
            assert(cur_state(dirs@, pool@, entries@) =~~= init_state());
            assert(cur_state(dirs@, pool@, entries@) == init_state());
            assert(paths_view(dirs@)[0] == Seq::<Seq<u8>>::empty());
            assert(paths_view(dirs@).contains(Seq::<Seq<u8>>::empty()));
        }
        let mut i: u64 = 0;
        #[verifier::loop_isolation(false)]
        while i < n
            invariant
                i <= n,
                run_steps(
                    typesv,
                    pn,
                    cur_state(dirs@, pool@, entries@),
                    ubytes(*u),
                    now_secs,
                    (n - i) as nat,
                ) == run_steps(typesv, pn, init_state(), bstart, now_secs, n as nat),
                paths_view(dirs@).contains(Seq::<Seq<u8>>::empty()),
                plan_paths_wf(entries_view(entries@)),
                plan_paths_distinct(entries_view(entries@)),
                forall|t: int|
                    0 <= t < entries@.len() && (#[trigger] entries_view(entries@)[t]).kind
                        != FileType::Directory ==> paths_view(pool@).contains(
                        entries_view(entries@)[t].path,
                    ),
                forall|t: int|
                    0 <= t < entries@.len() && (#[trigger] entries_view(entries@)[t]).kind
                        == FileType::Directory ==> paths_view(dirs@).contains(
                        entries_view(entries@)[t].path,
                    ),
                entries@.len() == 0 ==> pool@.len() == 0,
                entries@.len() > 0 ==> entries_view(entries@)[0].kind != FileType::Symlink
                    && entries_view(entries@)[0].kind != FileType::HardLink,
            decreases n - i,
        {
            let ghost stv = cur_state(dirs@, pool@, entries@);
            let ghost bi = ubytes(*u);
            let name = match draw_name(u, self.printable_names) {
                Result::Ok(v) => v,
                Result::Err(e) => {
                    proof {
                        assert(entry_step(typesv, pn, stv, bi, now_secs).0 == Result::<
                            GenStateV,
                            GenError,
                        >::Err(GenError::ExhaustedInput));
                    }
                    return Result::Err(e);
                },
            };
            let p = normalize_rel_path(&name);
            let ghost pv = path_view(p@);
            let mut skip = name.len() == 0;
            if !skip {
                if contains_path(&dirs, &p) || contains_path(&pool, &p) {
                    skip = true;
                }
            }
            if skip {
                proof {
                    assert(entry_step(typesv, pn, stv, bi, now_secs) == (
                        Result::<GenStateV, GenError>::Ok(stv),
                        ubytes(*u),
                    ));
                }
            } else if check_prefix_blocked(&pool, &p) {
                proof {
                    assert(entry_step(typesv, pn, stv, bi, now_secs).0 == Result::<
                        GenStateV,
                        GenError,
                    >::Err(GenError::FilesystemOperationFailed));
                }
                return Result::Err(GenError::FilesystemOperationFailed);
            } else {
                proof {
                    assert(pv.len() > 0) by {
                        if pv.len() == 0 {
                            assert(pv =~= Seq::<Seq<u8>>::empty());
                        }
                    }
                }
                let ghost d1 = paths_view(dirs@);
                add_parents_exec(&mut dirs, &p);
                let ghost dirs2v = paths_view(dirs@);
                let kind = match pick_kind(u, &self.file_types, pool.len() == 0) {
                    Result::Ok(k) => k,
                    Result::Err(e) => {
                        proof {
                            assert(entry_step(typesv, pn, stv, bi, now_secs).0 == Result::<
                                GenStateV,
                                GenError,
                            >::Err(GenError::ExhaustedInput));
                        }
                        return Result::Err(e);
                    },
                };
                let tt = match draw_time(u, now_secs) {
                    Result::Ok(t) => t,
                    Result::Err(e) => {
                        proof {
                            assert(entry_step(typesv, pn, stv, bi, now_secs).0 == Result::<
                                GenStateV,
                                GenError,
                            >::Err(GenError::ExhaustedInput));
                        }
                        return Result::Err(e);
                    },
                };
                proof {
                    if kind == FileType::Symlink || kind == FileType::HardLink {
                        assert(pool@.len() > 0);
                    }
                }
                let act = match draw_action(u, kind, &pool) {
                    Result::Ok(a) => a,
                    Result::Err(e) => {
                        proof {
                            assert(entry_step(typesv, pn, stv, bi, now_secs).0 == Result::<
                                GenStateV,
                                GenError,
                            >::Err(GenError::ExhaustedInput));
                        }
                        return Result::Err(e);
                    },
                };
                let entry = PlannedEntry {
                    path: clone_path(&p),
                    kind: kind,
                    mode: act.0,
                    contents: act.1,
                    target: act.2,
                    mtime_secs: tt.0,
                    mtime_nanos: tt.1,
                };
                let ghost ev = entry@;
                let ghost old_pool = paths_view(pool@);
                let ghost old_entries = entries_view(entries@);
                if kind == FileType::Directory {
                    dirs.push(clone_path(&p));
                } else {
                    pool.push(clone_path(&p));
                }
                entries.push(entry);
                proof {
                    lemma_add_parents_upto_contains(stv.dirs, pv, (pv.len() - 1) as nat);
                    assert(ev =~= PlannedEntryV {
                        path: pv,
                        kind: kind,
                        mode: act.0,
                        contents: act.1@,
                        target: path_view(act.2@),
                        mtime_secs: tt.0,
                        mtime_nanos: tt.1,
                    });
                    assert(entry_step(typesv, pn, stv, bi, now_secs) == (
                        Result::<GenStateV, GenError>::Ok(step_state(stv, ev, dirs2v)),
                        ubytes(*u),
                    ));
                    assert(entries_view(entries@) =~= old_entries.push(ev));
                    if kind == FileType::Directory {
                        assert(paths_view(dirs@) =~= dirs2v.push(pv));
                        assert(paths_view(pool@) == old_pool);
                    } else {
                        assert(paths_view(pool@) =~= old_pool.push(pv));
                        assert(paths_view(dirs@) == dirs2v);
                    }
                    assert(cur_state(dirs@, pool@, entries@) =~= step_state(stv, ev, dirs2v));
                    // the root is still a directory
                    assert(paths_view(dirs@).contains(Seq::<Seq<u8>>::empty())) by {
                        let k0 = choose|k0: int|
                            0 <= k0 < stv.dirs.len() && stv.dirs[k0] == Seq::<Seq<u8>>::empty();
                        assert(dirs2v[k0] == Seq::<Seq<u8>>::empty());
                        assert(paths_view(dirs@)[k0] == Seq::<Seq<u8>>::empty());
                    }
                    // the new path is fresh
                    assert forall|t: int| 0 <= t < old_entries.len() implies (
                    #[trigger] old_entries[t]).path != pv by {
                        if old_entries[t].kind == FileType::Directory {
                            assert(stv.dirs.contains(old_entries[t].path));
                        } else {
                            assert(stv.pool.contains(old_entries[t].path));
                        }
                    }
                    // membership of old entry paths, at unchanged indices
                    assert forall|t: int|
                        0 <= t < entries@.len() && (#[trigger] entries_view(entries@)[t]).kind
                            != FileType::Directory implies paths_view(pool@).contains(
                        entries_view(entries@)[t].path,
                    ) by {
                        if t < old_entries.len() {
                            let k0 = choose|k0: int|
                                0 <= k0 < old_pool.len() && old_pool[k0] == old_entries[t].path;
                            assert(paths_view(pool@)[k0] == entries_view(entries@)[t].path);
                        } else {
                            assert(entries_view(entries@)[t] == ev);
                            assert(paths_view(pool@)[old_pool.len() as int] == pv);
                        }
                    }
                    assert forall|t: int|
                        0 <= t < entries@.len() && (#[trigger] entries_view(entries@)[t]).kind
                            == FileType::Directory implies paths_view(dirs@).contains(
                        entries_view(entries@)[t].path,
                    ) by {
                        if t < old_entries.len() {
                            let k0 = choose|k0: int|
                                0 <= k0 < stv.dirs.len() && stv.dirs[k0] == old_entries[t].path;
                            assert(dirs2v[k0] == old_entries[t].path);
                            assert(paths_view(dirs@)[k0] == entries_view(entries@)[t].path);
                        } else {
                            assert(entries_view(entries@)[t] == ev);
                            assert(paths_view(dirs@)[dirs2v.len() as int] == pv);
                        }
                    }
                    crate::paths::lemma_normal_path_wf(name@);
                }
            }
            i = i + 1;
        }
        proof {
            assert(run_steps(
                typesv,
                pn,
                cur_state(dirs@, pool@, entries@),
                ubytes(*u),
                now_secs,
                0,
            ) == (Result::<GenStateV, GenError>::Ok(cur_state(dirs@, pool@, entries@)), ubytes(*u)));
        }
        Result::Ok(entries)
    }
}

} // verus!
