//! The exclusion matcher: which paths the scan skips, given the raw ignore
//! patterns of the configuration.

use vstd::prelude::*;

use crate::config::ConfigError;
use crate::text::{basename, basename_start, chars_of, contains_range, contains_seq};

verus! {

#[verifier::external_type_specification]
#[verifier::external_body]
pub struct ExRegexError(regex::Error);

/// Whether `regex::Regex::new` accepts the expression.
pub uninterp spec fn regex_valid(pattern: Seq<char>) -> bool;

/// Whether a compiled expression matches somewhere in the haystack.
pub uninterp spec fn regex_finds(pattern: Seq<char>, haystack: Seq<char>) -> bool;

/// Relies on `regex::Regex::new`, which returns `Ok` exactly when the
/// expression compiles, and on `Regex::is_match`, which reports whether the
/// expression matches anywhere in the haystack.
#[verifier::external_body]
fn regex_search(pattern: &Vec<char>, haystack: &str) -> (r: Result<bool, regex::Error>)
    ensures
        r is Ok <==> regex_valid(pattern@),
        r matches Ok(found) ==> found == regex_finds(pattern@, haystack@),
{
    let source: String = pattern.iter().collect();
    match regex::Regex::new(&source) {
        Ok(re) => Ok(re.is_match(haystack)),
        Err(e) => Err(e),
    }
}

/// `p[a..b]` is one of the pieces of `p` between slashes.
pub open spec fn is_segment(p: Seq<char>, a: int, b: int) -> bool {
    &&& 0 <= a <= b <= p.len()
    &&& (a == 0 || p[a - 1] == '/')
    &&& (b == p.len() || p[b] == '/')
    &&& forall|k: int| a <= k < b ==> p[k] != '/'
}

/// Some slash-separated piece of the pattern occurs in the path.
pub open spec fn segment_occurs(p: Seq<char>, path: Seq<char>) -> bool {
    exists|a: int, b: int| #[trigger] is_segment(p, a, b) && contains_seq(path, p.subrange(a, b))
}

pub open spec fn has_double_star(p: Seq<char>) -> bool {
    exists|i: int| 0 <= i < p.len() - 1 && #[trigger] p[i] == '*' && p[i + 1] == '*'
}

pub open spec fn has_star(p: Seq<char>) -> bool {
    exists|i: int| 0 <= i < p.len() && #[trigger] p[i] == '*'
}

/// The pattern with every `**` removed, scanning left to right.
pub open spec fn strip_double_stars(p: Seq<char>) -> Seq<char>
    decreases p.len(),
{
    if p.len() == 0 {
        p
    } else if p.len() >= 2 && p[0] == '*' && p[1] == '*' {
        strip_double_stars(p.subrange(2, p.len() as int))
    } else {
        seq![p[0]] + strip_double_stars(p.subrange(1, p.len() as int))
    }
}

/// The expression for a `**` pattern: stars removed, one trailing slash
/// dropped, anchored at the end of the path.
pub open spec fn double_star_regex(p: Seq<char>) -> Seq<char> {
    let s = strip_double_stars(p);
    let t = if s.len() > 0 && s.last() == '/' {
        s.drop_last()
    } else {
        s
    };
    t.push('$')
}

/// The expression for a `*` pattern: each star becomes `.*`.
pub open spec fn widen_stars(p: Seq<char>) -> Seq<char>
    decreases p.len(),
{
    if p.len() == 0 {
        p
    } else if p[0] == '*' {
        seq!['.', '*'] + widen_stars(p.drop_first())
    } else {
        seq![p[0]] + widen_stars(p.drop_first())
    }
}

/// The regular expression a pattern is tried as, if it has a wildcard.
pub open spec fn wildcard_regex(p: Seq<char>) -> Option<Seq<char>> {
    if has_double_star(p) {
        Some(double_star_regex(p))
    } else if has_star(p) {
        Some(widen_stars(p))
    } else {
        None
    }
}

/// The pattern can be used: it has no wildcard, or its expression compiles.
pub open spec fn pattern_compiles(p: Seq<char>) -> bool {
    match wildcard_regex(p) {
        Some(re) => regex_valid(re),
        None => true,
    }
}

/// One pattern excludes the path, by the first of its checks that applies:
/// a piece occurs in the path; for a file, the whole pattern occurs in it;
/// a `**` pattern's expression matches the path; a `*` pattern's
/// expression matches the basename.
pub open spec fn pattern_excludes(p: Seq<char>, path: Seq<char>, is_file: bool) -> bool {
    ||| segment_occurs(p, path)
    ||| (is_file && contains_seq(path, p))
    ||| if has_double_star(p) {
        regex_finds(double_star_regex(p), path)
    } else if has_star(p) {
        regex_finds(widen_stars(p), basename(path))
    } else {
        false
    }
}

/// Some pattern of the list excludes the path.
pub open spec fn excluded(patterns: Seq<Seq<char>>, path: Seq<char>, is_file: bool) -> bool {
    exists|k: int| 0 <= k < patterns.len() && pattern_excludes(#[trigger] patterns[k], path, is_file)
}

/// The plain pattern `node_modules` excludes exactly the paths that contain
/// it; `**/node_modules` excludes each of those too. So both exclude the
/// `node_modules` directory and every entry below it, and the scan prunes
/// the whole subtree under either form.
pub proof fn lemma_node_modules_pruning(path: Seq<char>, is_file: bool)
    ensures
        excluded(seq!["node_modules"@], path, is_file) == contains_seq(path, "node_modules"@),
        contains_seq(path, "node_modules"@) ==> excluded(seq!["**/node_modules"@], path, is_file),
{
    reveal_strlit("node_modules");
    reveal_strlit("**/node_modules");
    let nm = "node_modules"@;
    let glob = "**/node_modules"@;
    assert(forall|i: int| 0 <= i < nm.len() ==> nm[i] != '/' && nm[i] != '*');
    assert forall|a: int, b: int| #[trigger] is_segment(nm, a, b) implies a == 0 && b == nm.len() by {
        if a > 0 {
            assert(nm[a - 1] != '/');
        }
        if b < nm.len() {
            assert(nm[b] != '/');
        }
    }
    assert(nm.subrange(0, nm.len() as int) =~= nm);
    assert(is_segment(nm, 0, nm.len() as int));
    assert(!has_double_star(nm));
    assert(!has_star(nm));
    assert(excluded(seq![nm], path, is_file) == pattern_excludes(nm, path, is_file)) by {
        assert(seq![nm][0] == nm);
    }
    if contains_seq(path, nm) {
        assert(glob.subrange(3, 15) =~= nm);
        assert(is_segment(glob, 3, 15));
        assert(pattern_excludes(glob, path, is_file));
        assert(seq![glob][0] == glob);
    }
}

fn segment_occurs_exec(p: &Vec<char>, path: &Vec<char>) -> (r: bool)
    ensures
        r == segment_occurs(p@, path@),
{
    let n = p.len();
    let mut st: usize = 0;
    let mut i: usize = 0;
    while i < n
        invariant
            n == p@.len(),
            st <= i <= n,
            st == 0 || p@[st - 1] == '/',
            forall|k: int| st <= k < i ==> p@[k] != '/',
            forall|a: int, b: int|
                #[trigger] is_segment(p@, a, b) && b < i ==> !contains_seq(path@, p@.subrange(a, b)),
        decreases n - i,
    {
        if p[i] == '/' {
            if contains_range(path, p, st, i) {
                assert(is_segment(p@, st as int, i as int));
                return true;
            }
            assert forall|a: int, b: int| #[trigger] is_segment(p@, a, b) && b < i + 1 implies !contains_seq(
                path@,
                p@.subrange(a, b),
            ) by {
                if b == i {
                    if a < st {
                        assert(p@[st - 1] == '/');
                    } else if a > st {
                        assert(p@[a - 1] != '/');
                    }
                }
            }
            st = i + 1;
        }
        i += 1;
    }
    if contains_range(path, p, st, n) {
        assert(is_segment(p@, st as int, n as int));
        return true;
    }
    assert forall|a: int, b: int| #[trigger] is_segment(p@, a, b) implies !contains_seq(path@, p@.subrange(a, b)) by {
        if b == n {
            if a < st {
                assert(p@[st - 1] == '/');
            } else if a > st {
                assert(p@[a - 1] != '/');
            }
        }
    }
    false
}

fn has_double_star_exec(p: &Vec<char>) -> (r: bool)
    ensures
        r == has_double_star(p@),
{
    let mut i: usize = 0;
    while i < p.len() && i + 1 < p.len()
        invariant
            i <= p.len(),
            forall|j: int| 0 <= j < i && j < p@.len() - 1 ==> !(#[trigger] p@[j] == '*' && p@[j + 1] == '*'),
        decreases p.len() - i,
    {
        if p[i] == '*' && p[i + 1] == '*' {
            return true;
        }
        i += 1;
    }
    false
}

fn has_star_exec(p: &Vec<char>) -> (r: bool)
    ensures
        r == has_star(p@),
{
    let mut i: usize = 0;
    while i < p.len()
        invariant
            i <= p.len(),
            forall|j: int| 0 <= j < i ==> #[trigger] p@[j] != '*',
        decreases p.len() - i,
    {
        if p[i] == '*' {
            return true;
        }
        i += 1;
    }
    false
}

fn strip_double_stars_exec(p: &Vec<char>) -> (r: Vec<char>)
    ensures
        r@ == strip_double_stars(p@),
{
    let n = p.len();
    let mut out: Vec<char> = Vec::new();
    let mut i: usize = 0;
    assert(p@.subrange(0, n as int) =~= p@);
    while i < n
        invariant
            n == p@.len(),
            i <= n,
            strip_double_stars(p@) == out@ + strip_double_stars(p@.subrange(i as int, n as int)),
        decreases n - i,
    {
        let ghost rest = p@.subrange(i as int, n as int);
        if i + 1 < n && p[i] == '*' && p[i + 1] == '*' {
            assert(rest.subrange(2, rest.len() as int) =~= p@.subrange(i + 2, n as int));
            i += 2;
        } else {
            assert(rest.subrange(1, rest.len() as int) =~= p@.subrange(i + 1, n as int));
            let ghost before = out@;
            out.push(p[i]);
            assert(before + (seq![rest[0]] + strip_double_stars(p@.subrange(i + 1, n as int))) =~= out@
                + strip_double_stars(p@.subrange(i + 1, n as int)));
            i += 1;
        }
    }
    assert(out@ + strip_double_stars(p@.subrange(n as int, n as int)) =~= out@);
    out
}

fn widen_stars_exec(p: &Vec<char>) -> (r: Vec<char>)
    ensures
        r@ == widen_stars(p@),
{
    let n = p.len();
    let mut out: Vec<char> = Vec::new();
    let mut i: usize = 0;
    assert(p@.subrange(0, n as int) =~= p@);
    while i < n
        invariant
            n == p@.len(),
            i <= n,
            widen_stars(p@) == out@ + widen_stars(p@.subrange(i as int, n as int)),
        decreases n - i,
    {
        let ghost rest = p@.subrange(i as int, n as int);
        let ghost before = out@;
        assert(rest.drop_first() =~= p@.subrange(i + 1, n as int));
        if p[i] == '*' {
            out.push('.');
            out.push('*');
            assert(before + (seq!['.', '*'] + widen_stars(p@.subrange(i + 1, n as int))) =~= out@
                + widen_stars(p@.subrange(i + 1, n as int)));
        } else {
            out.push(p[i]);
            assert(before + (seq![rest[0]] + widen_stars(p@.subrange(i + 1, n as int))) =~= out@
                + widen_stars(p@.subrange(i + 1, n as int)));
        }
        i += 1;
    }
    assert(out@ + widen_stars(p@.subrange(n as int, n as int)) =~= out@);
    out
}

fn double_star_regex_exec(p: &Vec<char>) -> (r: Vec<char>)
    ensures
        r@ == double_star_regex(p@),
{
    let mut s = strip_double_stars_exec(p);
    let n = s.len();
    if n > 0 && s[n - 1] == '/' {
        s.pop();
    }
    s.push('$');
    s
}

fn wildcard_regex_exec(p: &Vec<char>) -> (r: Option<Vec<char>>)
    ensures
        match r {
            Some(re) => wildcard_regex(p@) == Some(re@),
            None => wildcard_regex(p@) is None,
        },
{
    if has_double_star_exec(p) {
        Some(double_star_regex_exec(p))
    } else if has_star_exec(p) {
        Some(widen_stars_exec(p))
    } else {
        None
    }
}

fn pattern_compiles_exec(p: &Vec<char>) -> (r: bool)
    ensures
        r == pattern_compiles(p@),
{
    match wildcard_regex_exec(p) {
        Some(re) => regex_search(&re, "").is_ok(),
        None => true,
    }
}

fn pattern_excludes_exec(p: &Vec<char>, path_str: &str, path: &Vec<char>, is_file: bool) -> (r: bool)
    requires
        path@ == path_str@,
        pattern_compiles(p@),
    ensures
        r == pattern_excludes(p@, path@, is_file),
{
    if segment_occurs_exec(p, path) {
        return true;
    }
    assert(p@.subrange(0, p@.len() as int) =~= p@);
    if is_file && contains_range(path, p, 0, p.len()) {
        return true;
    }
    if has_double_star_exec(p) {
        let re = double_star_regex_exec(p);
        match regex_search(&re, path_str) {
            Ok(found) => found,
            // unreachable: the pattern's expression compiles
            Err(_) => false,
        }
    } else if has_star_exec(p) {
        let re = widen_stars_exec(p);
        let start = basename_start(path);
        let name = path_str.substring_char(start, path.len());
        match regex_search(&re, name) {
            Ok(found) => found,
            // unreachable: the pattern's expression compiles
            Err(_) => false,
        }
    } else {
        false
    }
}

/// The ignore patterns of a configuration, each checked to be usable.
pub struct IgnoreSpec {
    patterns: Vec<String>,
}

impl View for IgnoreSpec {
    type V = Seq<Seq<char>>;

    closed spec fn view(&self) -> Seq<Seq<char>> {
        self.patterns@.map_values(|s: String| s@)
    }
}

/// The patterns as character sequences.
pub open spec fn patterns_view(patterns: Seq<String>) -> Seq<Seq<char>> {
    patterns.map_values(|s: String| s@)
}

/// Every pattern of the list can be used.
pub open spec fn all_compile(patterns: Seq<Seq<char>>) -> bool {
    forall|k: int| 0 <= k < patterns.len() ==> pattern_compiles(#[trigger] patterns[k])
}

impl IgnoreSpec {
    #[verifier::type_invariant]
    spec fn usable(self) -> bool {
        all_compile(self@)
    }

    /// Checks every pattern; fails on the first one whose expression does
    /// not compile.
    pub fn new(patterns: &Vec<String>) -> (r: Result<IgnoreSpec, ConfigError>)
        ensures
            r is Ok <==> all_compile(patterns_view(patterns@)),
            r matches Ok(spec) ==> spec@ == patterns_view(patterns@),
            r matches Err(e) ==> exists|k: int|
                0 <= k < patterns@.len() && !pattern_compiles(#[trigger] patterns@[k]@) && (forall|j: int|
                    0 <= j < k ==> pattern_compiles(#[trigger] patterns@[j]@)) && (e matches ConfigError::InvalidIgnorePattern(
                    q,
                ) && q@ == patterns@[k]@),
    {
        let mut kept: Vec<String> = Vec::new();
        let mut k: usize = 0;
        while k < patterns.len()
            invariant
                k <= patterns.len(),
                kept@.len() == k,
                forall|j: int| 0 <= j < k ==> #[trigger] kept@[j]@ == patterns@[j]@,
                forall|j: int| 0 <= j < k ==> pattern_compiles(#[trigger] patterns@[j]@),
            decreases patterns.len() - k,
        {
            let pc = chars_of(patterns[k].as_str());
            if !pattern_compiles_exec(&pc) {
                assert(!all_compile(patterns_view(patterns@))) by {
                    assert(patterns_view(patterns@)[k as int] == patterns@[k as int]@);
                }
                return Err(ConfigError::InvalidIgnorePattern(patterns[k].clone()));
            }
            kept.push(patterns[k].clone());
            k += 1;
        }
        assert(patterns_view(kept@) =~= patterns_view(patterns@));
        Ok(IgnoreSpec { patterns: kept })
    }

    /// Whether the scan must skip `path`; `is_file` tells whether it is a
    /// regular file.
    pub fn is_excluded(&self, path: &str, is_file: bool) -> (r: bool)
        ensures
            r == excluded(self@, path@, is_file),
    {
        proof {
            use_type_invariant(self);
        }
        let chars = chars_of(path);
        let mut k: usize = 0;
        while k < self.patterns.len()
            invariant
                k <= self.patterns@.len(),
                chars@ == path@,
                all_compile(self@),
                forall|j: int| 0 <= j < k ==> !pattern_excludes(#[trigger] self@[j], path@, is_file),
            decreases self.patterns@.len() - k,
        {
            let pc = chars_of(self.patterns[k].as_str());
            assert(self@[k as int] == self.patterns@[k as int]@);
            if pattern_excludes_exec(&pc, path, &chars, is_file) {
                return true;
            }
            k += 1;
        }
        false
    }
}

} // verus!
