use vstd::prelude::*;

use vstd::string::StrSliceExecFns;

use crate::policy::{Ignore, IgnoreView, opt_ignore, texts};

verus! {

/// Whether a regular expression compiles.
pub uninterp spec fn regex_compiles(pattern: Seq<char>) -> bool;

/// Whether a compiled regular expression finds a match somewhere in a text.
pub uninterp spec fn regex_finds(pattern: Seq<char>, text: Seq<char>) -> bool;

/// The text that a percent-encoded string decodes to, if its bytes form UTF-8.
pub uninterp spec fn percent_decoded(s: Seq<char>) -> Option<Seq<char>>;

/// regex's compiled expression, carried as an opaque value.
#[verifier::external_type_specification]
#[verifier::external_body]
pub struct ExRegex(regex::Regex);

/// regex's compilation error, carried as an opaque value.
#[verifier::external_type_specification]
#[verifier::external_body]
pub struct ExRegexError(regex::Error);

/// Relies on `regex::Regex::new`: it compiles exactly the patterns that its
/// syntax and size limits accept.
#[verifier::external_body]
fn compile_regex(pattern: &str) -> (r: Result<regex::Regex, regex::Error>)
    ensures
        r is Ok <==> regex_compiles(pattern@),
{
    regex::Regex::new(pattern)
}

/// Relies on `urlencoding::decode`: `%XX` escapes become bytes, everything else
/// stays, and the result must be UTF-8.
#[verifier::external_body]
fn decode_percent(s: &str) -> (r: Option<String>)
    ensures
        match r {
            Some(d) => percent_decoded(s@) == Some(d@),
            None => percent_decoded(s@) is None,
        },
{
    match urlencoding::decode(s) {
        Ok(d) => Some(d.into_owned()),
        Err(_) => None,
    }
}

/// A regular expression together with the pattern it was compiled from.
pub struct CompiledPattern {
    source: Ghost<Seq<char>>,
    re: regex::Regex,
}

impl CompiledPattern {
    pub closed spec fn source(&self) -> Seq<char> {
        self.source@
    }

    /// Compiles a regular expression.
    pub fn compile(pattern: &str) -> (r: Option<CompiledPattern>)
        ensures
            r is Some <==> regex_compiles(pattern@),
            r matches Some(c) ==> c.source() == pattern@,
    {
        match compile_regex(pattern) {
            Ok(re) => Some(CompiledPattern { source: Ghost(pattern@), re }),
            Err(_) => None,
        }
    }

    /// Relies on `regex::Regex::is_match`, on the expression that `compile`
    /// built from `source`: whether it matches anywhere in `text`.
    #[verifier::external_body]
    pub(crate) fn is_match(&self, text: &str) -> (r: bool)
        ensures
            r == regex_finds(self.source(), text@),
    {
        self.re.is_match(text)
    }
}

/// Why a filter could not be applied.
#[derive(Clone, Copy, PartialEq, Eq, Structural, Debug)]
pub enum FilterError {
    /// A pattern's percent-escapes do not decode to UTF-8.
    Undecodable,
    /// A decoded pattern is not a valid regular expression.
    InvalidPattern,
}

/// The pieces of a path between its `/` separators, empty ones included.
pub open spec fn split_pieces(p: Seq<char>) -> Seq<Seq<char>>
    decreases p.len(),
{
    if p.len() == 0 {
        seq![Seq::empty()]
    } else {
        let s = split_pieces(p.drop_last());
        if p.last() == '/' {
            s.push(Seq::empty())
        } else {
            s.update(s.len() - 1, s.last().push(p.last()))
        }
    }
}

/// The pieces that name something: neither empty nor `.`.
pub open spec fn named(ps: Seq<Seq<char>>) -> Seq<Seq<char>>
    decreases ps.len(),
{
    if ps.len() == 0 {
        Seq::empty()
    } else if ps.last().len() == 0 || ps.last() == seq!['.'] {
        named(ps.drop_last())
    } else {
        named(ps.drop_last()).push(ps.last())
    }
}

/// The components of a path, as `Path::components` gives them on Unix: the
/// root (written `/`) for an absolute path, a leading `.` for a relative path
/// that starts with one, then every piece that names something.
pub open spec fn components(p: Seq<char>) -> Seq<Seq<char>> {
    let ps = split_pieces(p);
    if p.len() > 0 && p[0] == '/' {
        seq![seq!['/']] + named(ps)
    } else if ps.len() > 0 && ps[0] == seq!['.'] {
        seq![seq!['.']] + named(ps.drop_first())
    } else {
        named(ps)
    }
}

/// A path lies under a prefix when the prefix's components begin the path's
/// components, as `Path::starts_with` decides.
pub open spec fn under_prefix(path: Seq<char>, prefix: Seq<char>) -> bool {
    let a = components(path);
    let b = components(prefix);
    b.len() <= a.len() && a.subrange(0, b.len() as int) == b
}

/// Whether `path` lies under any of the prefixes.
pub open spec fn under_any(path: Seq<char>, prefixes: Seq<Seq<char>>) -> bool {
    exists|i: int| 0 <= i < prefixes.len() && under_prefix(path, #[trigger] prefixes[i])
}

/// The outcome of trying the patterns in order on a text: the first pattern
/// that fails to decode or compile is an error, the first that matches
/// decides, and none matching means no match.
pub open spec fn patterns_outcome(patterns: Seq<Seq<char>>, text: Seq<char>) -> Result<
    bool,
    FilterError,
>
    decreases patterns.len(),
{
    if patterns.len() == 0 {
        Ok(false)
    } else {
        match percent_decoded(patterns[0]) {
            None => Err(FilterError::Undecodable),
            Some(p) => if !regex_compiles(p) {
                Err(FilterError::InvalidPattern)
            } else if regex_finds(p, text) {
                Ok(true)
            } else {
                patterns_outcome(patterns.drop_first(), text)
            },
        }
    }
}

/// Whether a filter leaves out an entry: it does when the entry's path lies
/// under one of its path prefixes, or else when one of its patterns matches
/// `text`. No filter leaves nothing out.
pub open spec fn ignore_outcome(
    ignore: Option<IgnoreView>,
    path: Seq<char>,
    text: Seq<char>,
) -> Result<bool, FilterError> {
    match ignore {
        None => Ok(false),
        Some(ig) => {
            let prefixes = match ig.paths {
                Some(p) => p,
                None => Seq::empty(),
            };
            let patterns = match ig.patterns {
                Some(p) => p,
                None => Seq::empty(),
            };
            if under_any(path, prefixes) {
                Ok(true)
            } else {
                patterns_outcome(patterns, text)
            }
        },
    }
}

pub open spec fn char_views(v: Seq<Vec<char>>) -> Seq<Seq<char>> {
    v.map_values(|x: Vec<char>| x@)
}

fn split_path(p: &str) -> (r: Vec<Vec<char>>)
    ensures
        char_views(r@) == split_pieces(p@),
{
    let n = p.unicode_len();
    let mut r: Vec<Vec<char>> = Vec::new();
    r.push(Vec::new());
    proof {
        assert(char_views(r@) =~= split_pieces(p@.subrange(0, 0)));
    }
    let mut i: usize = 0;
    while i < n
        invariant
            n == p@.len(),
            i <= n,
            r@.len() >= 1,
            char_views(r@) == split_pieces(p@.subrange(0, i as int)),
        decreases n - i,
    {
        let c = p.get_char(i);
        let ghost before = char_views(r@);
        proof {
            assert(p@.subrange(0, i as int + 1).drop_last() =~= p@.subrange(0, i as int));
            assert(p@.subrange(0, i as int + 1).last() == c);
        }
        if c == '/' {
            r.push(Vec::new());
            proof {
                assert(char_views(r@) =~= before.push(Seq::empty()));
            }
        } else {
            let mut last = r.pop().unwrap();
            let ghost lv = last@;
            last.push(c);
            r.push(last);
            proof {
                assert(lv == before.last());
                assert(char_views(r@) =~= before.update(before.len() - 1, before.last().push(c)));
            }
        }
        i = i + 1;
    }
    proof {
        assert(p@.subrange(0, n as int) =~= p@);
    }
    r
}

fn is_dot(x: &Vec<char>) -> (r: bool)
    ensures
        r == (x@ == seq!['.']),
{
    if x.len() == 1 && x[0] == '.' {
        proof {
            assert(x@ =~= seq!['.']);
        }
        true
    } else {
        false
    }
}

fn named_pieces(ps: &Vec<Vec<char>>, from: usize, out: &mut Vec<Vec<char>>)
    requires
        from <= ps@.len(),
    ensures
        char_views(final(out)@) == char_views(old(out)@) + named(
            char_views(ps@).subrange(from as int, ps@.len() as int),
        ),
{
    let ghost start = char_views(out@);
    let ghost all = char_views(ps@).subrange(from as int, ps@.len() as int);
    let mut i: usize = from;
    proof {
        assert(all.subrange(0, 0) =~= Seq::<Seq<char>>::empty());
        assert(char_views(out@) =~= start + named(Seq::<Seq<char>>::empty()));
    }
    while i < ps.len()
        invariant
            from <= i <= ps@.len(),
            all == char_views(ps@).subrange(from as int, ps@.len() as int),
            char_views(out@) == start + named(all.subrange(0, i - from)),
        decreases ps@.len() - i,
    {
        let ghost seen = all.subrange(0, i - from + 1);
        proof {
            assert(seen.drop_last() =~= all.subrange(0, i - from));
            assert(seen.last() == ps@[i as int]@);
        }
        if ps[i].len() == 0 || is_dot(&ps[i]) {
        } else {
            let ghost before = char_views(out@);
            out.push(ps[i].clone());
            proof {
                assert(char_views(out@) =~= before.push(ps@[i as int]@));
            }
        }
        i = i + 1;
    }
    proof {
        assert(all.subrange(0, ps@.len() - from) =~= all);
    }
}

fn path_components(p: &str) -> (r: Vec<Vec<char>>)
    ensures
        char_views(r@) == components(p@),
{
    let ps = split_path(p);
    let mut r: Vec<Vec<char>> = Vec::new();
    let absolute = p.unicode_len() > 0 && p.get_char(0) == '/';
    if absolute {
        let mut root: Vec<char> = Vec::new();
        root.push('/');
        r.push(root);
        proof {
            assert(char_views(r@) =~= seq![seq!['/']]);
            assert(char_views(ps@).subrange(0, ps@.len() as int) =~= char_views(ps@));
        }
        named_pieces(&ps, 0, &mut r);
    } else if ps.len() > 0 && is_dot(&ps[0]) {
        let mut dot: Vec<char> = Vec::new();
        dot.push('.');
        r.push(dot);
        proof {
            assert(char_views(r@) =~= seq![seq!['.']]);
            assert(char_views(ps@).subrange(1, ps@.len() as int) =~= char_views(ps@).drop_first());
        }
        named_pieces(&ps, 1, &mut r);
    } else {
        proof {
            assert(char_views(r@) =~= Seq::<Seq<char>>::empty());
            assert(char_views(ps@).subrange(0, ps@.len() as int) =~= char_views(ps@));
        }
        named_pieces(&ps, 0, &mut r);
        proof {
            assert(char_views(r@) =~= named(char_views(ps@)));
        }
    }
    r
}

fn same_chars(a: &Vec<char>, b: &Vec<char>) -> (r: bool)
    ensures
        r == (a@ == b@),
{
    if a.len() != b.len() {
        return false;
    }
    let mut i: usize = 0;
    while i < a.len()
        invariant
            a@.len() == b@.len(),
            i <= a@.len(),
            forall|j: int| 0 <= j < i ==> a@[j] == b@[j],
        decreases a@.len() - i,
    {
        if a[i] != b[i] {
            return false;
        }
        i = i + 1;
    }
    proof {
        assert(a@ =~= b@);
    }
    true
}

/// Whether `path` lies under `prefix`.
pub fn has_prefix(path: &str, prefix: &str) -> (r: bool)
    ensures
        r == under_prefix(path@, prefix@),
{
    let a = path_components(path);
    let b = path_components(prefix);
    if b.len() > a.len() {
        return false;
    }
    let mut i: usize = 0;
    while i < b.len()
        invariant
            char_views(a@) == components(path@),
            char_views(b@) == components(prefix@),
            b@.len() <= a@.len(),
            i <= b@.len(),
            forall|j: int| 0 <= j < i ==> a@[j]@ == b@[j]@,
        decreases b@.len() - i,
    {
        if !same_chars(&a[i], &b[i]) {
            proof {
                let x = char_views(a@).subrange(0, b@.len() as int);
                let y = char_views(b@);
                assert(x[i as int] == a@[i as int]@);
                assert(y[i as int] == b@[i as int]@);
                assert(x[i as int] != y[i as int]);
                assert(x != y);
            }
            return false;
        }
        i = i + 1;
    }
    proof {
        assert(char_views(a@).subrange(0, b@.len() as int) =~= char_views(b@));
    }
    true
}

/// Whether `path` lies under any of `prefixes`.
pub fn has_any_prefix(path: &str, prefixes: &Vec<String>) -> (r: bool)
    ensures
        r == under_any(path@, texts(prefixes@)),
{
    let mut i: usize = 0;
    while i < prefixes.len()
        invariant
            i <= prefixes@.len(),
            forall|j: int| 0 <= j < i ==> !under_prefix(path@, #[trigger] texts(prefixes@)[j]),
        decreases prefixes@.len() - i,
    {
        if has_prefix(path, prefixes[i].as_str()) {
            proof {
                assert(under_prefix(path@, texts(prefixes@)[i as int]));
            }
            return true;
        }
        i = i + 1;
    }
    false
}

/// Tries the percent-encoded patterns in order on `text`.
pub fn patterns_match(patterns: &Vec<String>, text: &str) -> (r: Result<bool, FilterError>)
    ensures
        r == patterns_outcome(texts(patterns@), text@),
{
    let ghost all = texts(patterns@);
    proof {
        assert(all.subrange(0, all.len() as int) =~= all);
    }
    let mut i: usize = 0;
    while i < patterns.len()
        invariant
            i <= patterns@.len(),
            all == texts(patterns@),
            patterns_outcome(all, text@) == patterns_outcome(
                all.subrange(i as int, all.len() as int),
                text@,
            ),
        decreases patterns@.len() - i,
    {
        let ghost rest = all.subrange(i as int, all.len() as int);
        proof {
            assert(rest[0] == patterns@[i as int]@);
            assert(rest.drop_first() =~= all.subrange(i as int + 1, all.len() as int));
        }
        let decoded = match decode_percent(patterns[i].as_str()) {
            Some(d) => d,
            None => return Err(FilterError::Undecodable),
        };
        let re = match CompiledPattern::compile(decoded.as_str()) {
            Some(re) => re,
            None => return Err(FilterError::InvalidPattern),
        };
        if re.is_match(text) {
            return Ok(true);
        }
        i = i + 1;
    }
    proof {
        assert(all.subrange(i as int, all.len() as int).len() == 0);
    }
    Ok(false)
}

/// Applies a filter to an entry with path `path`, its patterns to `text`.
pub fn is_ignored(ignore: &Option<Ignore>, path: &str, text: &str) -> (r: Result<bool, FilterError>)
    ensures
        r == ignore_outcome(opt_ignore(*ignore), path@, text@),
{
    match ignore {
        None => Ok(false),
        Some(ig) => {
            let under = match &ig.paths {
                Some(p) => has_any_prefix(path, p),
                None => {
                    proof {
                        assert(!under_any(path@, Seq::<Seq<char>>::empty()));
                    }
                    false
                },
            };
            if under {
                return Ok(true);
            }
            match &ig.patterns {
                Some(p) => patterns_match(p, text),
                None => Ok(false),
            }
        },
    }
}

/// Whether a scan leaves out a file: first the directory filter, on the
/// file's path and its parent directory, then the file filter, on its path
/// and its name.
pub open spec fn skip_outcome(
    ignore_files: Option<IgnoreView>,
    ignore_dirs: Option<IgnoreView>,
    path: Seq<char>,
    parent: Seq<char>,
    name: Seq<char>,
) -> Result<bool, FilterError> {
    match ignore_outcome(ignore_dirs, path, parent) {
        Ok(false) => ignore_outcome(ignore_files, path, name),
        other => other,
    }
}

/// Decides whether a scan leaves out the file at `path`, whose parent
/// directory is `parent` and whose name is `name`.
pub fn should_skip(
    ignore_files: &Option<Ignore>,
    ignore_dirs: &Option<Ignore>,
    path: &str,
    parent: &str,
    name: &str,
) -> (r: Result<bool, FilterError>)
    ensures
        r == skip_outcome(opt_ignore(*ignore_files), opt_ignore(*ignore_dirs), path@, parent@, name@),
{
    match is_ignored(ignore_dirs, path, parent) {
        Ok(false) => is_ignored(ignore_files, path, name),
        other => other,
    }
}

} // verus!
