use vstd::prelude::*;
use vstd::seq_lib::lemma_no_dup_in_concat;

use crate::traverse::{EntryKind, ListedEntry, paths_of_kind};

verus! {

/// The listing of directory `d` in a snapshot of the file system; a directory
/// that cannot be listed has no entries.
pub open spec fn entries_of(fs: Map<Seq<char>, Seq<ListedEntry>>, d: Seq<char>) -> Seq<ListedEntry> {
    if fs.contains_key(d) {
        fs[d]
    } else {
        Seq::empty()
    }
}

/// The listing of `p` has an entry of kind `k` at path `x`.
pub open spec fn lists(fs: Map<Seq<char>, Seq<ListedEntry>>, p: Seq<char>, x: Seq<char>, k: EntryKind) -> bool {
    exists|i: int|
        0 <= i < entries_of(fs, p).len() && (#[trigger] entries_of(fs, p)[i]).path@ == x
            && entries_of(fs, p)[i].kind == k
}

/// The shape that the traversal needs of a snapshot: the entries of a
/// directory have distinct paths, a path is listed by one directory at most
/// (which holds whenever each entry's path is its directory's path and a
/// name, see `lemma_one_parent`), the roots are distinct, and no root is
/// listed by any directory, so none lies inside another.
pub open spec fn is_tree(fs: Map<Seq<char>, Seq<ListedEntry>>, roots: Seq<Seq<char>>) -> bool {
    &&& forall|p: Seq<char>, i: int, j: int|
        0 <= i < entries_of(fs, p).len() && 0 <= j < entries_of(fs, p).len() && i != j
            ==> (#[trigger] entries_of(fs, p)[i]).path@ != (#[trigger] entries_of(fs, p)[j]).path@
    &&& forall|p: Seq<char>, q: Seq<char>, i: int, j: int|
        0 <= i < entries_of(fs, p).len() && 0 <= j < entries_of(fs, q).len() && (
        #[trigger] entries_of(fs, p)[i]).path@ == (#[trigger] entries_of(fs, q)[j]).path@ ==> p
            == q
    &&& forall|p: Seq<char>, i: int|
        0 <= i < entries_of(fs, p).len() ==> !roots.contains((#[trigger] entries_of(fs, p)[i]).path@)
    &&& roots.no_duplicates()
}

/// `x` is one of the roots or lies below one through at most `n` directories, without
/// passing through a symbolic link.
pub open spec fn reach_within(fs: Map<Seq<char>, Seq<ListedEntry>>, roots: Seq<Seq<char>>, x: Seq<char>, n: nat) -> bool
    decreases n,
{
    if n == 0 {
        roots.contains(x)
    } else {
        reach_within(fs, roots, x, (n - 1) as nat) || exists|p: Seq<char>|
            reach_within(fs, roots, p, (n - 1) as nat) && #[trigger] lists(fs, p, x, EntryKind::Directory)
    }
}

/// `x` is a directory reachable from a root without following a link.
pub open spec fn reachable(fs: Map<Seq<char>, Seq<ListedEntry>>, roots: Seq<Seq<char>>, x: Seq<char>) -> bool {
    exists|n: nat| #[trigger] reach_within(fs, roots, x, n)
}

/// The traverser's work in the abstract: directories waiting in its queue,
/// directories listed so far, files delivered to the drain so far.
pub struct WalkState {
    pub queue: Seq<Seq<char>>,
    pub listed: Seq<Seq<char>>,
    pub delivered: Seq<Seq<char>>,
}

pub open spec fn walk_start(roots: Seq<Seq<char>>) -> WalkState {
    WalkState { queue: roots, listed: Seq::empty(), delivered: Seq::empty() }
}

/// One item of the traverser: the first waiting directory is listed, its
/// subdirectories go back into the queue, its regular files to the drain.
pub open spec fn walk_step(fs: Map<Seq<char>, Seq<ListedEntry>>, s: WalkState) -> WalkState {
    if s.queue.len() == 0 {
        s
    } else {
        let d = s.queue[0];
        let l = entries_of(fs, d);
        WalkState {
            queue: s.queue.drop_first() + paths_of_kind(l, EntryKind::Directory),
            listed: s.listed.push(d),
            delivered: s.delivered + paths_of_kind(l, EntryKind::RegularFile),
        }
    }
}

pub open spec fn walk(fs: Map<Seq<char>, Seq<ListedEntry>>, s: WalkState, steps: nat) -> WalkState
    decreases steps,
{
    if steps == 0 {
        s
    } else {
        walk(fs, walk_step(fs, s), (steps - 1) as nat)
    }
}

pub open spec fn seen(s: WalkState, x: Seq<char>) -> bool {
    s.queue.contains(x) || s.listed.contains(x)
}

spec fn walk_inv(fs: Map<Seq<char>, Seq<ListedEntry>>, roots: Seq<Seq<char>>, s: WalkState) -> bool {
    &&& s.queue.no_duplicates()
    &&& s.listed.no_duplicates()
    &&& s.queue.disjoint(s.listed)
    &&& s.delivered.no_duplicates()
    &&& forall|r: Seq<char>| #[trigger] roots.contains(r) ==> seen(s, r)
    &&& forall|x: Seq<char>|
        #[trigger] seen(s, x) ==> roots.contains(x) || exists|p: Seq<char>|
            s.listed.contains(p) && #[trigger] lists(fs, p, x, EntryKind::Directory)
    &&& forall|p: Seq<char>, x: Seq<char>|
        s.listed.contains(p) && #[trigger] lists(fs, p, x, EntryKind::Directory) ==> seen(s, x)
    &&& forall|x: Seq<char>|
        #[trigger] s.delivered.contains(x) <==> exists|p: Seq<char>|
            s.listed.contains(p) && #[trigger] lists(fs, p, x, EntryKind::RegularFile)
    &&& forall|x: Seq<char>| #[trigger] seen(s, x) ==> reachable(fs, roots, x)
}

proof fn lemma_paths_of_kind_mem(l: Seq<ListedEntry>, k: EntryKind, x: Seq<char>)
    ensures
        paths_of_kind(l, k).contains(x) <==> exists|i: int|
            0 <= i < l.len() && (#[trigger] l[i]).path@ == x && l[i].kind == k,
    decreases l.len(),
{
    if l.len() > 0 {
        let pre = l.drop_last();
        lemma_paths_of_kind_mem(pre, k, x);
        let ps = paths_of_kind(pre, k);
        if paths_of_kind(l, k).contains(x) {
            if l.last().kind == k && l.last().path@ == x {
                assert(l[l.len() - 1].path@ == x);
            } else {
                if l.last().kind == k {
                    let j = choose|j: int| 0 <= j < ps.push(l.last().path@).len() && ps.push(l.last().path@)[j] == x;
                    assert(ps[j] == x);
                }
                let i = choose|i: int| 0 <= i < pre.len() && (#[trigger] pre[i]).path@ == x && pre[i].kind == k;
                assert(l[i] == pre[i]);
            }
        }
        if exists|i: int| 0 <= i < l.len() && (#[trigger] l[i]).path@ == x && l[i].kind == k {
            let i = choose|i: int| 0 <= i < l.len() && (#[trigger] l[i]).path@ == x && l[i].kind == k;
            if i == l.len() - 1 {
                assert(paths_of_kind(l, k) == ps.push(x));
                assert(ps.push(x)[ps.len() as int] == x);
            } else {
                assert(pre[i] == l[i]);
                let j = choose|j: int| 0 <= j < ps.len() && ps[j] == x;
                if l.last().kind == k {
                    assert(ps.push(l.last().path@)[j] == x);
                }
            }
        }
    }
}

proof fn lemma_paths_of_kind_no_dup(l: Seq<ListedEntry>, k: EntryKind)
    requires
        forall|i: int, j: int| 0 <= i < l.len() && 0 <= j < l.len() && i != j ==> l[i].path@ != l[j].path@,
    ensures
        paths_of_kind(l, k).no_duplicates(),
    decreases l.len(),
{
    if l.len() > 0 {
        let pre = l.drop_last();
        assert forall|i: int, j: int| 0 <= i < pre.len() && 0 <= j < pre.len() && i != j implies pre[i].path@ != pre[j].path@ by {
            assert(pre[i] == l[i] && pre[j] == l[j]);
        }
        lemma_paths_of_kind_no_dup(pre, k);
        if l.last().kind == k {
            let x = l.last().path@;
            lemma_paths_of_kind_mem(pre, k, x);
            if paths_of_kind(pre, k).contains(x) {
                let i = choose|i: int| 0 <= i < pre.len() && (#[trigger] pre[i]).path@ == x && pre[i].kind == k;
                assert(l[i].path@ != l[l.len() - 1].path@);
            }
            let ps = paths_of_kind(pre, k);
            assert forall|i: int, j: int| 0 <= i < ps.push(x).len() && 0 <= j < ps.push(x).len() && i != j implies ps.push(x)[i] != ps.push(x)[j] by {
                if i < ps.len() && j < ps.len() {
                } else if i == ps.len() {
                    assert(ps.contains(ps[j]));
                } else {
                    assert(ps.contains(ps[i]));
                }
            }
        }
    }
}

proof fn lemma_listed_once(
    fs: Map<Seq<char>, Seq<ListedEntry>>,
    roots: Seq<Seq<char>>,
    p: Seq<char>,
    q: Seq<char>,
    x: Seq<char>,
    k1: EntryKind,
    k2: EntryKind,
)
    requires
        is_tree(fs, roots),
        lists(fs, p, x, k1),
        lists(fs, q, x, k2),
    ensures
        p == q,
        k1 == k2,
{
    let i = choose|i: int| 0 <= i < entries_of(fs, p).len() && (#[trigger] entries_of(fs, p)[i]).path@ == x && entries_of(fs, p)[i].kind == k1;
    let j = choose|j: int| 0 <= j < entries_of(fs, q).len() && (#[trigger] entries_of(fs, q)[j]).path@ == x && entries_of(fs, q)[j].kind == k2;
    assert(p == q);
    if i != j {
        assert(entries_of(fs, p)[i].path@ != entries_of(fs, p)[j].path@);
    }
}

proof fn lemma_root_unlisted(
    fs: Map<Seq<char>, Seq<ListedEntry>>,
    roots: Seq<Seq<char>>,
    p: Seq<char>,
    k: EntryKind,
    r: Seq<char>,
)
    requires
        is_tree(fs, roots),
        roots.contains(r),
    ensures
        !lists(fs, p, r, k),
{
    if lists(fs, p, r, k) {
        let i = choose|i: int| 0 <= i < entries_of(fs, p).len() && (#[trigger] entries_of(fs, p)[i]).path@ == r && entries_of(fs, p)[i].kind == k;
        assert(!roots.contains(entries_of(fs, p)[i].path@));
    }
}

proof fn lemma_step_keeps_inv(fs: Map<Seq<char>, Seq<ListedEntry>>, roots: Seq<Seq<char>>, s: WalkState)
    requires
        is_tree(fs, roots),
        walk_inv(fs, roots, s),
        s.queue.len() > 0,
    ensures
        walk_inv(fs, roots, walk_step(fs, s)),
{
    let d = s.queue[0];
    let l = entries_of(fs, d);
    let subs = paths_of_kind(l, EntryKind::Directory);
    let files = paths_of_kind(l, EntryKind::RegularFile);
    let rest = s.queue.drop_first();
    let t = walk_step(fs, s);
    assert(t.queue == rest + subs);
    assert(t.listed == s.listed.push(d));
    assert(t.delivered == s.delivered + files);
    assert(s.queue.contains(d));
    assert(!s.listed.contains(d));
    assert forall|i: int, j: int| 0 <= i < l.len() && 0 <= j < l.len() && i != j implies l[i].path@ != l[j].path@ by {
        assert(l[i] == entries_of(fs, d)[i] && l[j] == entries_of(fs, d)[j]);
    }
    lemma_paths_of_kind_no_dup(l, EntryKind::Directory);
    lemma_paths_of_kind_no_dup(l, EntryKind::RegularFile);
    // Membership in the new subdirectories and files is being listed by `d`.
    assert forall|x: Seq<char>| #[trigger] subs.contains(x) <==> lists(fs, d, x, EntryKind::Directory) by {
        lemma_paths_of_kind_mem(l, EntryKind::Directory, x);
    }
    assert forall|x: Seq<char>| #[trigger] files.contains(x) <==> lists(fs, d, x, EntryKind::RegularFile) by {
        lemma_paths_of_kind_mem(l, EntryKind::RegularFile, x);
    }
    // A new subdirectory was never seen before.
    assert forall|x: Seq<char>| #[trigger] subs.contains(x) implies !seen(s, x) by {
        if seen(s, x) {
            if roots.contains(x) {
                lemma_root_unlisted(fs, roots, d, EntryKind::Directory, x);
            } else {
                let p = choose|p: Seq<char>| s.listed.contains(p) && #[trigger] lists(fs, p, x, EntryKind::Directory);
                lemma_listed_once(fs, roots, p, d, x, EntryKind::Directory, EntryKind::Directory);
            }
        }
    }
    // A new file was never delivered before.
    assert forall|x: Seq<char>| #[trigger] files.contains(x) implies !s.delivered.contains(x) by {
        if s.delivered.contains(x) {
            let p = choose|p: Seq<char>| s.listed.contains(p) && #[trigger] lists(fs, p, x, EntryKind::RegularFile);
            lemma_listed_once(fs, roots, p, d, x, EntryKind::RegularFile, EntryKind::RegularFile);
        }
    }
    // The queue.
    assert(rest.no_duplicates());
    assert forall|i: int, j: int| 0 <= i < rest.len() && 0 <= j < subs.len() implies rest[i] != subs[j] by {
        assert(s.queue.contains(rest[i]));
        assert(subs.contains(subs[j]));
    }
    lemma_no_dup_in_concat(rest, subs);
    // The listed directories.
    assert forall|i: int, j: int| 0 <= i < t.listed.len() && 0 <= j < t.listed.len() && i != j implies t.listed[i] != t.listed[j] by {
        if i < s.listed.len() && j < s.listed.len() {
        } else if i == s.listed.len() {
            assert(s.listed.contains(t.listed[j]));
        } else {
            assert(s.listed.contains(t.listed[i]));
        }
    }
    assert forall|i: int, j: int| 0 <= i < t.queue.len() && 0 <= j < t.listed.len() implies t.queue[i] != t.listed[j] by {
        let y = t.queue[i];
        if i < rest.len() {
            assert(y == s.queue[i + 1]);
            assert(s.queue[0] != s.queue[i + 1]);
            if j < s.listed.len() {
                assert(s.queue[i + 1] != s.listed[j]);
            }
        } else {
            assert(y == subs[i - rest.len()]);
            assert(subs.contains(y));
            assert(!seen(s, y));
            if j < s.listed.len() {
                assert(s.listed.contains(s.listed[j]));
            } else {
                assert(seen(s, d));
            }
        }
    }
    // The delivered files.
    assert forall|i: int, j: int| 0 <= i < s.delivered.len() && 0 <= j < files.len() implies s.delivered[i] != files[j] by {
        assert(files.contains(files[j]));
        assert(s.delivered.contains(s.delivered[i]));
    }
    lemma_no_dup_in_concat(s.delivered, files);
    // What has been seen.
    assert forall|x: Seq<char>| #[trigger] seen(t, x) <==> seen(s, x) || subs.contains(x) by {
        if t.queue.contains(x) {
            let i = choose|i: int| 0 <= i < t.queue.len() && t.queue[i] == x;
            if i < rest.len() {
                assert(s.queue[i + 1] == x);
            } else {
                assert(subs[i - rest.len()] == x);
            }
        }
        if t.listed.contains(x) {
            let i = choose|i: int| 0 <= i < t.listed.len() && t.listed[i] == x;
            if i < s.listed.len() {
                assert(s.listed[i] == x);
            }
        }
        if s.queue.contains(x) {
            let i = choose|i: int| 0 <= i < s.queue.len() && s.queue[i] == x;
            if i == 0 {
                assert(t.listed[s.listed.len() as int] == x);
            } else {
                assert(t.queue[i - 1] == x);
            }
        }
        if s.listed.contains(x) {
            let i = choose|i: int| 0 <= i < s.listed.len() && s.listed[i] == x;
            assert(t.listed[i] == x);
        }
        if subs.contains(x) {
            let i = choose|i: int| 0 <= i < subs.len() && subs[i] == x;
            assert(t.queue[rest.len() + i] == x);
        }
    }
    assert forall|p: Seq<char>| #[trigger] t.listed.contains(p) <==> s.listed.contains(p) || p == d by {
        if t.listed.contains(p) {
            let i = choose|i: int| 0 <= i < t.listed.len() && t.listed[i] == p;
            if i < s.listed.len() {
                assert(s.listed[i] == p);
            }
        }
        if s.listed.contains(p) {
            let i = choose|i: int| 0 <= i < s.listed.len() && s.listed[i] == p;
            assert(t.listed[i] == p);
        }
        assert(t.listed[s.listed.len() as int] == d);
    }
    assert forall|x: Seq<char>| #[trigger] t.delivered.contains(x) <==> s.delivered.contains(x) || files.contains(x) by {
        if t.delivered.contains(x) {
            let i = choose|i: int| 0 <= i < t.delivered.len() && t.delivered[i] == x;
            if i < s.delivered.len() {
                assert(s.delivered[i] == x);
            } else {
                assert(files[i - s.delivered.len()] == x);
            }
        }
        if s.delivered.contains(x) {
            let i = choose|i: int| 0 <= i < s.delivered.len() && s.delivered[i] == x;
            assert(t.delivered[i] == x);
        }
        if files.contains(x) {
            let i = choose|i: int| 0 <= i < files.len() && files[i] == x;
            assert(t.delivered[s.delivered.len() + i] == x);
        }
    }
    assert forall|r: Seq<char>| #[trigger] roots.contains(r) implies seen(t, r) by {
        assert(seen(s, r));
    }
    assert forall|x: Seq<char>| #[trigger] seen(t, x) implies roots.contains(x) || exists|p: Seq<char>|
        t.listed.contains(p) && #[trigger] lists(fs, p, x, EntryKind::Directory) by {
        if seen(s, x) {
            if !roots.contains(x) {
                let p = choose|p: Seq<char>| s.listed.contains(p) && #[trigger] lists(fs, p, x, EntryKind::Directory);
                assert(t.listed.contains(p));
            }
        } else {
            assert(subs.contains(x));
            assert(t.listed.contains(d));
        }
    }
    assert forall|p: Seq<char>, x: Seq<char>|
        t.listed.contains(p) && #[trigger] lists(fs, p, x, EntryKind::Directory) implies seen(t, x) by {
        if p == d {
            assert(subs.contains(x));
        } else {
            assert(s.listed.contains(p));
            assert(seen(s, x));
        }
    }
    assert forall|x: Seq<char>| #[trigger] t.delivered.contains(x) <==> exists|p: Seq<char>|
        t.listed.contains(p) && #[trigger] lists(fs, p, x, EntryKind::RegularFile) by {
        if t.delivered.contains(x) {
            if s.delivered.contains(x) {
                let p = choose|p: Seq<char>| s.listed.contains(p) && #[trigger] lists(fs, p, x, EntryKind::RegularFile);
                assert(t.listed.contains(p));
            } else {
                assert(files.contains(x));
                assert(t.listed.contains(d));
            }
        }
        if exists|p: Seq<char>| t.listed.contains(p) && #[trigger] lists(fs, p, x, EntryKind::RegularFile) {
            let p = choose|p: Seq<char>| t.listed.contains(p) && #[trigger] lists(fs, p, x, EntryKind::RegularFile);
            if p == d {
                assert(files.contains(x));
            } else {
                assert(s.listed.contains(p));
                assert(s.delivered.contains(x));
            }
        }
    }
    assert forall|x: Seq<char>| #[trigger] seen(t, x) implies reachable(fs, roots, x) by {
        if !seen(s, x) {
            assert(subs.contains(x));
            assert(seen(s, d));
            let n = choose|n: nat| #[trigger] reach_within(fs, roots, d, n);
            assert(lists(fs, d, x, EntryKind::Directory));
            assert(reach_within(fs, roots, x, n + 1));
        }
    }
}

proof fn lemma_walk_keeps_inv(fs: Map<Seq<char>, Seq<ListedEntry>>, roots: Seq<Seq<char>>, s: WalkState, steps: nat)
    requires
        is_tree(fs, roots),
        walk_inv(fs, roots, s),
    ensures
        walk_inv(fs, roots, walk(fs, s, steps)),
    decreases steps,
{
    if steps > 0 {
        if s.queue.len() > 0 {
            lemma_step_keeps_inv(fs, roots, s);
        }
        lemma_walk_keeps_inv(fs, roots, walk_step(fs, s), (steps - 1) as nat);
    }
}

proof fn lemma_reachable_is_listed(
    fs: Map<Seq<char>, Seq<ListedEntry>>,
    roots: Seq<Seq<char>>,
    s: WalkState,
    x: Seq<char>,
    n: nat,
)
    requires
        walk_inv(fs, roots, s),
        s.queue.len() == 0,
        reach_within(fs, roots, x, n),
    ensures
        s.listed.contains(x),
    decreases n,
{
    if n == 0 {
        assert(seen(s, x));
    } else if reach_within(fs, roots, x, (n - 1) as nat) {
        lemma_reachable_is_listed(fs, roots, s, x, (n - 1) as nat);
    } else {
        let p = choose|p: Seq<char>|
            reach_within(fs, roots, p, (n - 1) as nat) && #[trigger] lists(fs, p, x, EntryKind::Directory);
        lemma_reachable_is_listed(fs, roots, s, p, (n - 1) as nat);
        assert(seen(s, x));
    }
}

/// Once the traverser's queue, seeded with `roots`, has run dry, every regular
/// file listed by a directory reachable from a root without following a
/// symbolic link has been delivered to the drain exactly once, nothing else
/// has been delivered, and no symbolic link has been listed or delivered;
/// given the shape that `is_tree` describes (cycles through hard links
/// or bind mounts are not detected).
pub proof fn lemma_traversal_delivers_each_file_once(
    fs: Map<Seq<char>, Seq<ListedEntry>>,
    roots: Seq<Seq<char>>,
    steps: nat,
)
    requires
        is_tree(fs, roots),
        walk(fs, walk_start(roots), steps).queue.len() == 0,
    ensures
        walk(fs, walk_start(roots), steps).delivered.no_duplicates(),
        forall|x: Seq<char>|
            #[trigger] walk(fs, walk_start(roots), steps).delivered.contains(x) <==> exists|p: Seq<char>|
                reachable(fs, roots, p) && #[trigger] lists(fs, p, x, EntryKind::RegularFile),
        forall|p: Seq<char>, x: Seq<char>|
            #[trigger] lists(fs, p, x, EntryKind::Symlink) ==> !walk(
                fs,
                walk_start(roots),
                steps,
            ).delivered.contains(x) && !walk(fs, walk_start(roots), steps).listed.contains(x),
{
    let s0 = walk_start(roots);
    assert forall|x: Seq<char>| #[trigger] seen(s0, x) <==> roots.contains(x) by {}
    assert forall|x: Seq<char>| #[trigger] roots.contains(x) implies reachable(fs, roots, x) by {
        assert(reach_within(fs, roots, x, 0));
    }
    assert(walk_inv(fs, roots, s0));
    lemma_walk_keeps_inv(fs, roots, s0, steps);
    let s = walk(fs, s0, steps);
    assert forall|x: Seq<char>| #[trigger] s.delivered.contains(x) <==> exists|p: Seq<char>|
        reachable(fs, roots, p) && #[trigger] lists(fs, p, x, EntryKind::RegularFile) by {
        if s.delivered.contains(x) {
            let p = choose|p: Seq<char>| s.listed.contains(p) && #[trigger] lists(fs, p, x, EntryKind::RegularFile);
            assert(seen(s, p));
        }
        if exists|p: Seq<char>| reachable(fs, roots, p) && #[trigger] lists(fs, p, x, EntryKind::RegularFile) {
            let p = choose|p: Seq<char>| reachable(fs, roots, p) && #[trigger] lists(fs, p, x, EntryKind::RegularFile);
            let n = choose|n: nat| #[trigger] reach_within(fs, roots, p, n);
            lemma_reachable_is_listed(fs, roots, s, p, n);
        }
    }
    assert forall|p: Seq<char>, x: Seq<char>| #[trigger] lists(fs, p, x, EntryKind::Symlink) implies !s.delivered.contains(x)
        && !s.listed.contains(x) by {
        if s.delivered.contains(x) {
            let q = choose|q: Seq<char>| s.listed.contains(q) && #[trigger] lists(fs, q, x, EntryKind::RegularFile);
            lemma_listed_once(fs, roots, p, q, x, EntryKind::Symlink, EntryKind::RegularFile);
        }
        if s.listed.contains(x) {
            assert(seen(s, x));
            if roots.contains(x) {
                lemma_root_unlisted(fs, roots, p, EntryKind::Symlink, x);
            } else {
                let q = choose|q: Seq<char>| s.listed.contains(q) && #[trigger] lists(fs, q, x, EntryKind::Directory);
                lemma_listed_once(fs, roots, p, q, x, EntryKind::Symlink, EntryKind::Directory);
            }
        }
    }
}

/// `x` is the path of an entry of directory `p`: `p`, a `/`, then a name
/// without `/`.
pub open spec fn child_of(x: Seq<char>, p: Seq<char>) -> bool {
    &&& x.len() > p.len() + 1
    &&& x.subrange(0, p.len() as int) == p
    &&& x[p.len() as int] == '/'
    &&& forall|k: int| p.len() < k < x.len() ==> #[trigger] x[k] != '/'
}

/// Every entry's path is its directory's path and a name.
pub open spec fn well_named(fs: Map<Seq<char>, Seq<ListedEntry>>) -> bool {
    forall|p: Seq<char>, i: int|
        0 <= i < entries_of(fs, p).len() ==> child_of((#[trigger] entries_of(fs, p)[i]).path@, p)
}

/// In a snapshot where every entry's path is its directory's path and a name,
/// a path is listed by one directory at most.
pub proof fn lemma_one_parent(fs: Map<Seq<char>, Seq<ListedEntry>>)
    requires
        well_named(fs),
    ensures
        forall|p: Seq<char>, q: Seq<char>, i: int, j: int|
            0 <= i < entries_of(fs, p).len() && 0 <= j < entries_of(fs, q).len() && (
            #[trigger] entries_of(fs, p)[i]).path@ == (#[trigger] entries_of(fs, q)[j]).path@
                ==> p == q,
{
    assert forall|p: Seq<char>, q: Seq<char>, i: int, j: int|
        0 <= i < entries_of(fs, p).len() && 0 <= j < entries_of(fs, q).len() && (
        #[trigger] entries_of(fs, p)[i]).path@ == (#[trigger] entries_of(fs, q)[j]).path@
            implies p == q by {
        let x = entries_of(fs, p)[i].path@;
        assert(child_of(x, p));
        assert(child_of(entries_of(fs, q)[j].path@, q));
        if p.len() < q.len() {
            assert(x[q.len() as int] == '/');
        } else if q.len() < p.len() {
            assert(x[p.len() as int] == '/');
        }
        assert(p =~= x.subrange(0, p.len() as int));
    }
}

/// No symbolic link is ever followed: at no point of the traversal has a
/// path listed as a symbolic link been queued, listed or delivered, whether
/// or not the traversal ever ends.
pub proof fn lemma_symlinks_never_followed(
    fs: Map<Seq<char>, Seq<ListedEntry>>,
    roots: Seq<Seq<char>>,
    steps: nat,
)
    requires
        is_tree(fs, roots),
    ensures
        forall|p: Seq<char>, x: Seq<char>|
            #[trigger] lists(fs, p, x, EntryKind::Symlink) ==> !walk(
                fs,
                walk_start(roots),
                steps,
            ).delivered.contains(x) && !seen(walk(fs, walk_start(roots), steps), x),
{
    let s0 = walk_start(roots);
    assert forall|x: Seq<char>| #[trigger] seen(s0, x) <==> roots.contains(x) by {}
    assert forall|x: Seq<char>| #[trigger] roots.contains(x) implies reachable(fs, roots, x) by {
        assert(reach_within(fs, roots, x, 0));
    }
    assert(walk_inv(fs, roots, s0));
    lemma_walk_keeps_inv(fs, roots, s0, steps);
    let s = walk(fs, s0, steps);
    assert forall|p: Seq<char>, x: Seq<char>| #[trigger] lists(fs, p, x, EntryKind::Symlink) implies !s.delivered.contains(x)
        && !seen(s, x) by {
        if s.delivered.contains(x) {
            let q = choose|q: Seq<char>| s.listed.contains(q) && #[trigger] lists(fs, q, x, EntryKind::RegularFile);
            lemma_listed_once(fs, roots, p, q, x, EntryKind::Symlink, EntryKind::RegularFile);
        }
        if seen(s, x) {
            if roots.contains(x) {
                lemma_root_unlisted(fs, roots, p, EntryKind::Symlink, x);
            } else {
                let q = choose|q: Seq<char>| s.listed.contains(q) && #[trigger] lists(fs, q, x, EntryKind::Directory);
                lemma_listed_once(fs, roots, p, q, x, EntryKind::Symlink, EntryKind::Directory);
            }
        }
    }
}

} // verus!
