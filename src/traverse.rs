use vstd::prelude::*;

verus! {

/// What a directory entry is, as seen without following symbolic links.
#[derive(Clone, Copy, PartialEq, Eq, Structural, Debug)]
pub enum EntryKind {
    Directory,
    RegularFile,
    Symlink,
    Other,
}

/// One child of a listed directory.
pub struct ListedEntry {
    pub path: String,
    pub kind: EntryKind,
}

/// Where the children of one directory go: subdirectories back into the
/// traverser's own queue, regular files on to the reader.
pub struct ListingSplit {
    pub subdirs: Vec<String>,
    pub files: Vec<String>,
}

/// The paths of the entries of kind `k`, in listing order.
pub open spec fn paths_of_kind(entries: Seq<ListedEntry>, k: EntryKind) -> Seq<Seq<char>>
    decreases entries.len(),
{
    if entries.len() == 0 {
        Seq::empty()
    } else if entries.last().kind == k {
        paths_of_kind(entries.drop_last(), k).push(entries.last().path@)
    } else {
        paths_of_kind(entries.drop_last(), k)
    }
}

/// How many times `p` occurs in `s`.
pub open spec fn occurrences(s: Seq<Seq<char>>, p: Seq<char>) -> nat
    decreases s.len(),
{
    if s.len() == 0 {
        0
    } else {
        occurrences(s.drop_last(), p) + if s.last() == p {
            1nat
        } else {
            0nat
        }
    }
}

pub open spec fn view_paths(v: Seq<String>) -> Seq<Seq<char>> {
    v.map_values(|s: String| s@)
}

/// Splits the listing of one directory: every subdirectory is to be listed in
/// turn, every regular file is to be read, and symbolic links and other
/// entries are skipped, so that no link is ever followed.
pub fn split_listing(entries: &Vec<ListedEntry>) -> (r: ListingSplit)
    ensures
        view_paths(r.subdirs@) == paths_of_kind(entries@, EntryKind::Directory),
        view_paths(r.files@) == paths_of_kind(entries@, EntryKind::RegularFile),
{
    let mut subdirs: Vec<String> = Vec::new();
    let mut files: Vec<String> = Vec::new();
    let mut i: usize = 0;
    while i < entries.len()
        invariant
            i <= entries@.len(),
            view_paths(subdirs@) == paths_of_kind(entries@.subrange(0, i as int), EntryKind::Directory),
            view_paths(files@) == paths_of_kind(entries@.subrange(0, i as int), EntryKind::RegularFile),
        decreases entries@.len() - i,
    {
        let e = &entries[i];
        let ghost seen = entries@.subrange(0, i as int + 1);
        proof {
            assert(seen.drop_last() =~= entries@.subrange(0, i as int));
            assert(seen.last() == entries@[i as int]);
        }
        let ghost dirs_before = subdirs@;
        let ghost files_before = files@;
        match e.kind {
            EntryKind::Directory => {
                subdirs.push(e.path.clone());
                proof {
                    assert(view_paths(subdirs@) =~= view_paths(dirs_before).push(e.path@));
                }
            },
            EntryKind::RegularFile => {
                files.push(e.path.clone());
                proof {
                    assert(view_paths(files@) =~= view_paths(files_before).push(e.path@));
                }
            },
            _ => {},
        }
        i = i + 1;
    }
    proof {
        assert(entries@.subrange(0, entries@.len() as int) =~= entries@);
    }
    ListingSplit { subdirs, files }
}

proof fn lemma_occurrences_step(entries: Seq<ListedEntry>, k: EntryKind, p: Seq<char>)
    requires
        entries.len() > 0,
    ensures
        occurrences(paths_of_kind(entries, k), p) == occurrences(
            paths_of_kind(entries.drop_last(), k),
            p,
        ) + if entries.last().kind == k && entries.last().path@ == p {
            1nat
        } else {
            0nat
        },
{
    let pre = paths_of_kind(entries.drop_last(), k);
    if entries.last().kind == k {
        let s = pre.push(entries.last().path@);
        assert(s.drop_last() =~= pre);
    }
}

proof fn lemma_absent_kind(entries: Seq<ListedEntry>, k: EntryKind, p: Seq<char>)
    requires
        forall|i: int|
            0 <= i < entries.len() && #[trigger] entries[i].path@ == p ==> entries[i].kind != k,
    ensures
        occurrences(paths_of_kind(entries, k), p) == 0,
    decreases entries.len(),
{
    if entries.len() > 0 {
        let pre = entries.drop_last();
        assert forall|a: int| 0 <= a < pre.len() && #[trigger] pre[a].path@ == p implies pre[a].kind != k by {
            assert(entries[a].path@ == p);
        }
        lemma_absent_kind(pre, k, p);
        lemma_occurrences_step(entries, k, p);
        if entries.last().path@ == p {
            assert(entries[entries.len() - 1].path@ == p);
        }
    }
}

proof fn lemma_single_entry(entries: Seq<ListedEntry>, k: EntryKind, i: int)
    requires
        0 <= i < entries.len(),
        forall|j: int| 0 <= j < entries.len() && j != i ==> entries[j].path@ != entries[i].path@,
    ensures
        occurrences(paths_of_kind(entries, k), entries[i].path@) == if entries[i].kind == k {
            1nat
        } else {
            0nat
        },
    decreases entries.len(),
{
    let p = entries[i].path@;
    let pre = entries.drop_last();
    let n = entries.len() - 1;
    lemma_occurrences_step(entries, k, p);
    if i == n {
        assert forall|a: int| 0 <= a < pre.len() && #[trigger] pre[a].path@ == p implies pre[a].kind != k by {
            assert(entries[a].path@ != p);
        }
        lemma_absent_kind(pre, k, p);
    } else {
        assert forall|j: int| 0 <= j < pre.len() && j != i implies pre[j].path@ != pre[i].path@ by {
            assert(entries[j].path@ != p);
        }
        lemma_single_entry(pre, k, i);
        assert(entries[n].path@ != p);
    }
}

/// One listing step delivers each regular file of a directory to the reader
/// exactly once and resubmits each subdirectory exactly once, and never passes
/// on a symbolic link, given that the entries of a directory have distinct
/// paths.
pub proof fn lemma_listing_delivers_each_file_once(entries: Seq<ListedEntry>, i: int)
    requires
        0 <= i < entries.len(),
        forall|a: int, b: int|
            0 <= a < b < entries.len() ==> entries[a].path@ != entries[b].path@,
    ensures
        entries[i].kind == EntryKind::RegularFile ==> occurrences(
            paths_of_kind(entries, EntryKind::RegularFile),
            entries[i].path@,
        ) == 1 && occurrences(paths_of_kind(entries, EntryKind::Directory), entries[i].path@)
            == 0,
        entries[i].kind == EntryKind::Directory ==> occurrences(
            paths_of_kind(entries, EntryKind::Directory),
            entries[i].path@,
        ) == 1 && occurrences(paths_of_kind(entries, EntryKind::RegularFile), entries[i].path@)
            == 0,
        entries[i].kind == EntryKind::Symlink ==> occurrences(
            paths_of_kind(entries, EntryKind::Directory),
            entries[i].path@,
        ) == 0 && occurrences(paths_of_kind(entries, EntryKind::RegularFile), entries[i].path@)
            == 0,
{
    let p = entries[i].path@;
    assert forall|j: int| 0 <= j < entries.len() && j != i implies entries[j].path@ != p by {
        if j < i {
            assert(entries[j].path@ != entries[i].path@);
        } else {
            assert(entries[i].path@ != entries[j].path@);
        }
    }
    lemma_single_entry(entries, EntryKind::RegularFile, i);
    lemma_single_entry(entries, EntryKind::Directory, i);
}

} // verus!
