//! A single field pattern: a shell glob when it holds a wildcard, an exact
//! string otherwise.

use vstd::prelude::*;

use crate::text::chars_of;

verus! {

#[verifier::external_type_specification]
#[verifier::external_body]
pub struct ExPatternError(glob::PatternError);

/// Whether `glob::Pattern::new` accepts the pattern.
pub uninterp spec fn glob_valid(pattern: Seq<char>) -> bool;

/// Whether a compiled glob pattern matches the whole of a string.
pub uninterp spec fn glob_matches(pattern: Seq<char>, field: Seq<char>) -> bool;

/// Relies on `glob::Pattern::new`, which returns `Ok` exactly for a pattern
/// it can compile, and on `glob::Pattern::matches`, which tests a string
/// against the compiled pattern with the default options.
#[verifier::external_body]
fn glob_match(pattern: &str, field: &str) -> (r: Result<bool, glob::PatternError>)
    ensures
        r is Ok <==> glob_valid(pattern@),
        r matches Ok(m) ==> m == glob_matches(pattern@, field@),
{
    match glob::Pattern::new(pattern) {
        Ok(p) => Ok(p.matches(field)),
        Err(e) => Err(e),
    }
}

/// The pattern holds a `*` or a `?`.
pub open spec fn has_wildcard(p: Seq<char>) -> bool {
    exists|i: int| 0 <= i < p.len() && (#[trigger] p[i] == '*' || p[i] == '?')
}

fn has_wildcard_exec(p: &str) -> (r: bool)
    ensures
        r == has_wildcard(p@),
{
    let chars = chars_of(p);
    let mut i: usize = 0;
    while i < chars.len()
        invariant
            chars@ == p@,
            i <= chars@.len(),
            forall|j: int| 0 <= j < i ==> !(#[trigger] chars@[j] == '*' || chars@[j] == '?'),
        decreases chars@.len() - i,
    {
        if chars[i] == '*' || chars[i] == '?' {
            return true;
        }
        i += 1;
    }
    false
}

/// A pattern a field is compared with.
pub enum Pattern {
    Glob(String),
    Plain(String),
}

/// A pattern string is usable when it is plain or a valid glob.
pub open spec fn pattern_usable(p: Seq<char>) -> bool {
    has_wildcard(p) ==> glob_valid(p)
}

impl Pattern {
    /// A glob pattern holds a valid glob.
    pub open spec fn wf(&self) -> bool {
        match self {
            Pattern::Glob(s) => glob_valid(s@),
            Pattern::Plain(_) => true,
        }
    }

    /// Whether this pattern accepts `field`.
    pub open spec fn accepts(&self, field: Seq<char>) -> bool {
        match self {
            Pattern::Glob(s) => glob_matches(s@, field),
            Pattern::Plain(s) => s@ == field,
        }
    }

    /// A glob for a string with a wildcard, a plain pattern otherwise.
    pub fn new(pattern: &str) -> (r: Self)
        requires
            pattern_usable(pattern@),
        ensures
            r.wf(),
            has_wildcard(pattern@) ==> (r matches Pattern::Glob(s) && s@ == pattern@),
            !has_wildcard(pattern@) ==> (r matches Pattern::Plain(s) && s@ == pattern@),
    {
        if has_wildcard_exec(pattern) {
            Pattern::Glob(pattern.to_owned())
        } else {
            Pattern::Plain(pattern.to_owned())
        }
    }

    /// As `new`, or `None` when the string has a wildcard but is no valid
    /// glob.
    pub fn try_new(pattern: &str) -> (r: Option<Self>)
        ensures
            r is Some <==> pattern_usable(pattern@),
            r matches Some(p) ==> p.wf() && (has_wildcard(pattern@) ==> (p matches Pattern::Glob(s)
                && s@ == pattern@)) && (!has_wildcard(pattern@) ==> (p matches Pattern::Plain(s) && s@
                == pattern@)),
    {
        if has_wildcard_exec(pattern) && glob_match(pattern, "").is_err() {
            None
        } else {
            Some(Pattern::new(pattern))
        }
    }

    /// Whether `field` matches: the whole field against the glob, or equal
    /// to the plain string.
    pub fn matches(&self, field: &str) -> (r: bool)
        requires
            self.wf(),
        ensures
            r == self.accepts(field@),
    {
        match self {
            Pattern::Glob(s) => match glob_match(s.as_str(), field) {
                Ok(m) => m,
                // unreachable: the glob is valid
                Err(_) => false,
            },
            Pattern::Plain(s) => {
                let a = chars_of(s.as_str());
                crate::text::same_chars(&a, field)
            },
        }
    }

    /// As `matches`, or `None` for a glob that does not compile.
    pub fn try_matches(&self, field: &str) -> (r: Option<bool>)
        ensures
            r is Some <==> self.wf(),
            r matches Some(m) ==> m == self.accepts(field@),
    {
        let usable = match self {
            Pattern::Glob(s) => glob_match(s.as_str(), "").is_ok(),
            Pattern::Plain(_) => true,
        };
        if usable {
            Some(self.matches(field))
        } else {
            None
        }
    }
}

} // verus!
