use vstd::prelude::*;

verus! {

/// The text of a list of strings.
pub open spec fn texts(v: Seq<String>) -> Seq<Seq<char>> {
    v.map_values(|s: String| s@)
}

pub open spec fn opt_texts(o: Option<Vec<String>>) -> Option<Seq<Seq<char>>> {
    match o {
        Some(v) => Some(texts(v@)),
        None => None,
    }
}

/// Copies a list of strings.
pub fn copy_strings(v: &Vec<String>) -> (r: Vec<String>)
    ensures
        texts(r@) == texts(v@),
{
    let mut r: Vec<String> = Vec::new();
    let mut i: usize = 0;
    while i < v.len()
        invariant
            i <= v@.len(),
            texts(r@) == texts(v@.subrange(0, i as int)),
        decreases v@.len() - i,
    {
        let ghost before = r@;
        r.push(v[i].clone());
        proof {
            assert(texts(r@) =~= texts(before).push(v@[i as int]@));
            assert(v@.subrange(0, i as int + 1) =~= v@.subrange(0, i as int).push(v@[i as int]));
            assert(texts(v@.subrange(0, i as int + 1)) =~= texts(v@.subrange(0, i as int)).push(
                v@[i as int]@,
            ));
        }
        i = i + 1;
    }
    proof {
        assert(v@.subrange(0, v@.len() as int) =~= v@);
    }
    r
}

fn copy_opt_strings(o: &Option<Vec<String>>) -> (r: Option<Vec<String>>)
    ensures
        opt_texts(r) == opt_texts(*o),
{
    match o {
        Some(v) => Some(copy_strings(v)),
        None => None,
    }
}

/// Paths and name patterns to leave out of a scan.
pub struct Ignore {
    /// Regular expressions, percent-encoded, matched against a name.
    pub patterns: Option<Vec<String>>,
    /// Path prefixes.
    pub paths: Option<Vec<String>>,
}

pub struct IgnoreView {
    pub patterns: Option<Seq<Seq<char>>>,
    pub paths: Option<Seq<Seq<char>>>,
}

impl View for Ignore {
    type V = IgnoreView;

    open spec fn view(&self) -> IgnoreView {
        IgnoreView { patterns: opt_texts(self.patterns), paths: opt_texts(self.paths) }
    }
}

pub open spec fn opt_ignore(o: Option<Ignore>) -> Option<IgnoreView> {
    match o {
        Some(i) => Some(i@),
        None => None,
    }
}

impl Ignore {
    pub fn duplicate(&self) -> (r: Ignore)
        ensures
            r@ == self@,
    {
        Ignore { patterns: copy_opt_strings(&self.patterns), paths: copy_opt_strings(&self.paths) }
    }
}

/// Copies an optional filter.
pub fn copy_ignore(o: &Option<Ignore>) -> (r: Option<Ignore>)
    ensures
        opt_ignore(r) == opt_ignore(*o),
{
    match o {
        Some(i) => Some(i.duplicate()),
        None => None,
    }
}

/// Directories watched for changes, with their filters.
pub struct Watch {
    pub dirs: Vec<String>,
    pub ignore_files: Option<Ignore>,
    pub ignore_dirs: Option<Ignore>,
}

/// Directories scanned on a schedule, with their filters and either an
/// interval in seconds or a cron expression.
pub struct Schedule {
    pub dirs: Vec<String>,
    pub ignore_files: Option<Ignore>,
    pub ignore_dirs: Option<Ignore>,
    pub interval: Option<u32>,
    pub cron: Option<String>,
}

/// The agent's policy: what to watch, and named schedules.
pub struct Policy {
    pub watch: Option<Watch>,
    /// The schedules, each with its name. The names only label the schedules:
    /// nothing here relies on their being distinct.
    pub schedule: Option<Vec<(String, Schedule)>>,
}

} // verus!
