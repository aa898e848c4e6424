//! Casing styles and the grammar each one imposes on a filename stem.

use vstd::prelude::*;

use crate::text::{chars_of, same_chars};

verus! {

/// One naming convention a filename stem may follow.
#[derive(Debug, Clone, Copy, PartialEq, Eq, Structural)]
pub enum FilenameCase {
    Lower,
    Snake,
    Camel,
    Kebab,
    Pascal,
    Point,
    ScreamingSnake,
}

pub open spec fn is_lower_letter(c: char) -> bool {
    'a' <= c && c <= 'z'
}

pub open spec fn is_upper_letter(c: char) -> bool {
    'A' <= c && c <= 'Z'
}

pub open spec fn is_digit(c: char) -> bool {
    '0' <= c && c <= '9'
}

/// `[a-z0-9]`
pub open spec fn is_lower_alnum(c: char) -> bool {
    is_lower_letter(c) || is_digit(c)
}

/// `[A-Z0-9]`
pub open spec fn is_upper_alnum(c: char) -> bool {
    is_upper_letter(c) || is_digit(c)
}

/// `[a-zA-Z0-9]`
pub open spec fn is_ascii_alnum(c: char) -> bool {
    is_lower_letter(c) || is_upper_letter(c) || is_digit(c)
}

/// A token character: `[A-Z0-9]` when `upper`, else `[a-z0-9]`.
pub open spec fn is_token_char(c: char, upper: bool) -> bool {
    if upper {
        is_upper_alnum(c)
    } else {
        is_lower_alnum(c)
    }
}

/// `^[a-z0-9]+$`: a stem with no separator and no capital, which every
/// style accepts.
pub open spec fn is_plain_lower(s: Seq<char>) -> bool {
    s.len() > 0 && forall|i: int| 0 <= i < s.len() ==> is_lower_alnum(#[trigger] s[i])
}

/// `^T+(sT+)*$` where `s` is `sep` and `T` the token class: non-empty runs of
/// token characters joined by single separators.
pub open spec fn is_joined(s: Seq<char>, sep: char, upper: bool) -> bool {
    &&& s.len() > 0
    &&& forall|i: int| 0 <= i < s.len() ==> #[trigger] s[i] == sep || is_token_char(s[i], upper)
    &&& s[0] != sep
    &&& s[s.len() - 1] != sep
    &&& forall|i: int| 0 <= i < s.len() - 1 && #[trigger] s[i] == sep ==> s[i + 1] != sep
}

/// `^[a-z]+([A-Z][a-z0-9]*)*$`: a lowercase run, then capitalised words; a
/// digit may only stand after the first capital.
pub open spec fn is_camel(s: Seq<char>) -> bool {
    &&& s.len() > 0
    &&& is_lower_letter(s[0])
    &&& forall|i: int| 0 <= i < s.len() ==> is_ascii_alnum(#[trigger] s[i])
    &&& forall|i: int|
        0 <= i < s.len() && is_digit(#[trigger] s[i]) ==> exists|j: int| 0 <= j < i && is_upper_letter(#[trigger] s[j])
}

/// `^([A-Z][a-z0-9]+)+$`: capitalised words, each with at least one
/// character after its capital.
pub open spec fn is_pascal(s: Seq<char>) -> bool {
    &&& s.len() > 0
    &&& is_upper_letter(s[0])
    &&& forall|i: int| 0 <= i < s.len() ==> is_ascii_alnum(#[trigger] s[i])
    &&& forall|i: int|
        0 <= i < s.len() && is_upper_letter(#[trigger] s[i]) ==> i + 1 < s.len() && !is_upper_letter(s[i + 1])
}

/// `t` is one token, `T+`.
pub open spec fn is_token(t: Seq<char>, upper: bool) -> bool {
    t.len() > 0 && forall|i: int| 0 <= i < t.len() ==> is_token_char(#[trigger] t[i], upper)
}

/// `T+(sT+)*` read as the regular expression it is: a token up to the first
/// separator, and when a separator follows, again such a string after it.
pub open spec fn tokens_joined(s: Seq<char>, sep: char, upper: bool) -> bool
    decreases s.len(),
{
    let k = first_index(s, sep);
    if 0 < k < s.len() {
        is_token(s.subrange(0, k), upper) && tokens_joined(s.subrange(k + 1, s.len() as int), sep, upper)
    } else {
        is_token(s, upper)
    }
}

/// The index of the first `sep` in `s`, or its length when there is none.
pub open spec fn first_index(s: Seq<char>, sep: char) -> int
    decreases s.len(),
{
    if s.len() == 0 || s[0] == sep {
        0
    } else {
        1 + first_index(s.drop_first(), sep)
    }
}

proof fn lemma_first_index(s: Seq<char>, sep: char)
    ensures
        0 <= first_index(s, sep) <= s.len(),
        forall|j: int| 0 <= j < first_index(s, sep) ==> s[j] != sep,
        first_index(s, sep) < s.len() ==> s[first_index(s, sep)] == sep,
    decreases s.len(),
{
    if s.len() > 0 && s[0] != sep {
        lemma_first_index(s.drop_first(), sep);
        assert forall|j: int| 0 <= j < first_index(s, sep) implies s[j] != sep by {
            if j > 0 {
                assert(s[j] == s.drop_first()[j - 1]);
            }
        }
    }
}

/// The separator is no token character.
pub open spec fn is_separator_for(sep: char, upper: bool) -> bool {
    !is_token_char(sep, upper)
}

/// The positional statement of a separated style is the regular
/// expression `T+(sT+)*` itself.
pub proof fn lemma_joined_is_regex(s: Seq<char>, sep: char, upper: bool)
    requires
        is_separator_for(sep, upper),
    ensures
        is_joined(s, sep, upper) == tokens_joined(s, sep, upper),
    decreases s.len(),
{
    lemma_first_index(s, sep);
    let k = first_index(s, sep);
    if 0 < k < s.len() {
        let rest = s.subrange(k + 1, s.len() as int);
        lemma_joined_is_regex(rest, sep, upper);
        if tokens_joined(s, sep, upper) {
            assert forall|i: int| 0 <= i < s.len() implies #[trigger] s[i] == sep || is_token_char(s[i], upper) by {
                if i < k {
                    assert(s[i] == s.subrange(0, k)[i]);
                } else if i > k {
                    assert(s[i] == rest[i - k - 1]);
                }
            }
            assert(s[0] == s.subrange(0, k)[0]);
            assert(s[s.len() - 1] == rest[rest.len() - 1]);
            assert forall|i: int| 0 <= i < s.len() - 1 && #[trigger] s[i] == sep implies s[i + 1] != sep by {
                if i < k {
                    assert(s[i] == s.subrange(0, k)[i]);
                } else if i == k {
                    assert(s[i + 1] == rest[0]);
                } else {
                    assert(s[i] == rest[i - k - 1]);
                    assert(s[i + 1] == rest[i - k]);
                }
            }
        }
        if is_joined(s, sep, upper) {
            assert forall|i: int| 0 <= i < k implies is_token_char(#[trigger] s.subrange(0, k)[i], upper) by {
                assert(s.subrange(0, k)[i] == s[i]);
            }
            assert(k < s.len() - 1);
            assert(rest[0] == s[k + 1]);
            assert(rest[rest.len() - 1] == s[s.len() - 1]);
            assert forall|i: int| 0 <= i < rest.len() implies #[trigger] rest[i] == sep || is_token_char(rest[i], upper) by {
                assert(rest[i] == s[k + 1 + i]);
            }
            assert forall|i: int| 0 <= i < rest.len() - 1 && #[trigger] rest[i] == sep implies rest[i + 1] != sep by {
                assert(rest[i] == s[k + 1 + i]);
                assert(rest[i + 1] == s[k + 2 + i]);
            }
        }
    } else if k == 0 && s.len() > 0 {
        assert(!is_token_char(s[0], upper));
    }
}

/// The grammar of one style, without the plain-lowercase escape.
pub open spec fn style_grammar(case: FilenameCase, s: Seq<char>) -> bool {
    match case {
        FilenameCase::Lower => is_plain_lower(s),
        FilenameCase::Snake => is_joined(s, '_', false),
        FilenameCase::Camel => is_camel(s),
        FilenameCase::Kebab => is_joined(s, '-', false),
        FilenameCase::Pascal => is_pascal(s),
        FilenameCase::Point => is_joined(s, '.', false),
        FilenameCase::ScreamingSnake => is_joined(s, '_', true),
    }
}

/// A stem conforms to a style when it is plain lowercase (ambiguous between
/// all styles) or follows that style's grammar.
pub open spec fn conforms(case: FilenameCase, s: Seq<char>) -> bool {
    is_plain_lower(s) || style_grammar(case, s)
}

/// A stem conforms to a rule set when it conforms to at least one member.
pub open spec fn conforms_any(cases: Seq<FilenameCase>, s: Seq<char>) -> bool {
    exists|k: int| 0 <= k < cases.len() && conforms(#[trigger] cases[k], s)
}

/// The canonical name of each style, as configuration files spell it.
pub open spec fn case_name(case: FilenameCase) -> Seq<char> {
    match case {
        FilenameCase::Lower => "lowercase"@,
        FilenameCase::Snake => "snake_case"@,
        FilenameCase::Camel => "camelCase"@,
        FilenameCase::Kebab => "kebab-case"@,
        FilenameCase::Pascal => "Pascal"@,
        FilenameCase::Point => "point.case"@,
        FilenameCase::ScreamingSnake => "SCREAMING_SNAKE_CASE"@,
    }
}

/// The style a configuration name stands for, if any.
pub open spec fn case_of_name(s: Seq<char>) -> Option<FilenameCase> {
    if s == "lowercase"@ {
        Some(FilenameCase::Lower)
    } else if s == "snake_case"@ {
        Some(FilenameCase::Snake)
    } else if s == "camelCase"@ {
        Some(FilenameCase::Camel)
    } else if s == "kebab-case"@ {
        Some(FilenameCase::Kebab)
    } else if s == "Pascal"@ {
        Some(FilenameCase::Pascal)
    } else if s == "point.case"@ {
        Some(FilenameCase::Point)
    } else if s == "SCREAMING_SNAKE_CASE"@ {
        Some(FilenameCase::ScreamingSnake)
    } else {
        None
    }
}

/// The message for a name that stands for no style.
pub open spec fn unknown_case_message(s: Seq<char>) -> Seq<char> {
    "Unknown filename case: "@ + s
}

/// Parsing the canonical name of a style gives that style back.
pub proof fn lemma_name_round_trip(case: FilenameCase)
    ensures
        case_of_name(case_name(case)) == Some(case),
{
    reveal_strlit("lowercase");
    reveal_strlit("snake_case");
    reveal_strlit("camelCase");
    reveal_strlit("kebab-case");
    reveal_strlit("Pascal");
    reveal_strlit("point.case");
    reveal_strlit("SCREAMING_SNAKE_CASE");
    assert("lowercase"@[0] == 'l');
    assert("snake_case"@[0] == 's');
    assert("camelCase"@[0] == 'c');
    assert("kebab-case"@[0] == 'k');
    assert("Pascal"@[0] == 'P');
    assert("point.case"@[0] == 'p');
    assert("SCREAMING_SNAKE_CASE"@[0] == 'S');
}

/// Every non-empty stem of lowercase ASCII letters and digits conforms to
/// every style.
pub proof fn lemma_plain_lower_conforms(case: FilenameCase, s: Seq<char>)
    requires
        s.len() > 0,
        forall|i: int| 0 <= i < s.len() ==> is_lower_alnum(#[trigger] s[i]),
    ensures
        conforms(case, s),
{
}

/// Snake, kebab and point case accept exactly the strings of
/// `^[a-z0-9]+(_[a-z0-9]+)*$`, with `-` and `.` in place of `_`.
pub proof fn lemma_separated_styles(s: Seq<char>)
    ensures
        conforms(FilenameCase::Snake, s) == tokens_joined(s, '_', false),
        conforms(FilenameCase::Kebab, s) == tokens_joined(s, '-', false),
        conforms(FilenameCase::Point, s) == tokens_joined(s, '.', false),
{
    lemma_joined_is_regex(s, '_', false);
    lemma_joined_is_regex(s, '-', false);
    lemma_joined_is_regex(s, '.', false);
    if is_plain_lower(s) {
        assert(is_lower_alnum(s[0]));
        assert(is_lower_alnum(s[s.len() - 1]));
        assert forall|i: int| 0 <= i < s.len() - 1 && #[trigger] s[i] == '_' implies s[i + 1] != '_' by {
            assert(is_lower_alnum(s[i]));
        }
        assert forall|i: int| 0 <= i < s.len() - 1 && #[trigger] s[i] == '-' implies s[i + 1] != '-' by {
            assert(is_lower_alnum(s[i]));
        }
        assert forall|i: int| 0 <= i < s.len() - 1 && #[trigger] s[i] == '.' implies s[i + 1] != '.' by {
            assert(is_lower_alnum(s[i]));
        }
    }
}

/// On a stem that is not plain lowercase, each style accepts exactly what
/// its own grammar accepts (screaming snake: `^[A-Z0-9]+(_[A-Z0-9]+)*$`;
/// camel: `^[a-z]+([A-Z][a-z0-9]*)*$`; pascal: `^([A-Z][a-z0-9]+)+$`).
pub proof fn lemma_grammar_decides(case: FilenameCase, s: Seq<char>)
    requires
        !is_plain_lower(s),
    ensures
        conforms(case, s) == style_grammar(case, s),
        conforms(FilenameCase::ScreamingSnake, s) == tokens_joined(s, '_', true),
{
    lemma_joined_is_regex(s, '_', true);
}

fn lower_letter(c: char) -> (r: bool)
    ensures
        r == is_lower_letter(c),
{
    'a' <= c && c <= 'z'
}

fn upper_letter(c: char) -> (r: bool)
    ensures
        r == is_upper_letter(c),
{
    'A' <= c && c <= 'Z'
}

fn digit(c: char) -> (r: bool)
    ensures
        r == is_digit(c),
{
    '0' <= c && c <= '9'
}

fn token_char(c: char, upper: bool) -> (r: bool)
    ensures
        r == is_token_char(c, upper),
{
    if upper {
        upper_letter(c) || digit(c)
    } else {
        lower_letter(c) || digit(c)
    }
}

fn check_plain_lower(s: &Vec<char>) -> (r: bool)
    ensures
        r == is_plain_lower(s@),
{
    if s.len() == 0 {
        return false;
    }
    let mut i: usize = 0;
    while i < s.len()
        invariant
            i <= s.len(),
            forall|k: int| 0 <= k < i ==> is_lower_alnum(#[trigger] s@[k]),
        decreases s.len() - i,
    {
        if !(lower_letter(s[i]) || digit(s[i])) {
            return false;
        }
        i += 1;
    }
    true
}

fn check_joined(s: &Vec<char>, sep: char, upper: bool) -> (r: bool)
    ensures
        r == is_joined(s@, sep, upper),
{
    let n = s.len();
    if n == 0 || s[0] == sep || s[n - 1] == sep {
        return false;
    }
    let mut i: usize = 0;
    while i < n
        invariant
            n == s@.len(),
            n > 0,
            i <= n,
            forall|k: int| 0 <= k < i ==> #[trigger] s@[k] == sep || is_token_char(s@[k], upper),
            forall|k: int| 0 <= k < i && k < n - 1 && #[trigger] s@[k] == sep ==> s@[k + 1] != sep,
        decreases n - i,
    {
        let c = s[i];
        if c == sep {
            if i + 1 < n && s[i + 1] == sep {
                return false;
            }
        } else if !token_char(c, upper) {
            return false;
        }
        i += 1;
    }
    true
}

fn check_camel(s: &Vec<char>) -> (r: bool)
    ensures
        r == is_camel(s@),
{
    let n = s.len();
    if n == 0 || !lower_letter(s[0]) {
        return false;
    }
    let mut seen_upper = false;
    let mut i: usize = 0;
    while i < n
        invariant
            n == s@.len(),
            i <= n,
            seen_upper == exists|j: int| 0 <= j < i && is_upper_letter(#[trigger] s@[j]),
            forall|k: int| 0 <= k < i ==> is_ascii_alnum(#[trigger] s@[k]),
            forall|k: int|
                0 <= k < i && is_digit(#[trigger] s@[k]) ==> exists|j: int| 0 <= j < k && is_upper_letter(#[trigger] s@[j]),
        decreases n - i,
    {
        let c = s[i];
        if digit(c) {
            if !seen_upper {
                return false;
            }
        } else if upper_letter(c) {
            seen_upper = true;
        } else if !lower_letter(c) {
            return false;
        }
        i += 1;
    }
    true
}

fn check_pascal(s: &Vec<char>) -> (r: bool)
    ensures
        r == is_pascal(s@),
{
    let n = s.len();
    if n == 0 || !upper_letter(s[0]) {
        return false;
    }
    let mut i: usize = 0;
    while i < n
        invariant
            n == s@.len(),
            i <= n,
            forall|k: int| 0 <= k < i ==> is_ascii_alnum(#[trigger] s@[k]),
            forall|k: int|
                0 <= k < i && is_upper_letter(#[trigger] s@[k]) ==> k + 1 < n && !is_upper_letter(s@[k + 1]),
        decreases n - i,
    {
        let c = s[i];
        if upper_letter(c) {
            if i + 1 >= n || upper_letter(s[i + 1]) {
                return false;
            }
        } else if !(lower_letter(c) || digit(c)) {
            return false;
        }
        i += 1;
    }
    true
}

impl FilenameCase {
    /// The canonical name of this style.
    pub fn name(&self) -> (r: &'static str)
        ensures
            r@ == case_name(*self),
    {
        match self {
            FilenameCase::Lower => "lowercase",
            FilenameCase::Snake => "snake_case",
            FilenameCase::Camel => "camelCase",
            FilenameCase::Kebab => "kebab-case",
            FilenameCase::Pascal => "Pascal",
            FilenameCase::Point => "point.case",
            FilenameCase::ScreamingSnake => "SCREAMING_SNAKE_CASE",
        }
    }

    /// The canonical name of this style, as an owned string.
    pub fn to_string(&self) -> (r: String)
        ensures
            r@ == case_name(*self),
    {
        self.name().to_owned()
    }

    /// Reads a style from its canonical name.
    pub fn from_str(s: &str) -> (r: Result<FilenameCase, String>)
        ensures
            case_of_name(s@) matches Some(c) ==> r == Ok::<FilenameCase, String>(c),
            case_of_name(s@) is None ==> (r matches Err(m) && m@ == unknown_case_message(s@)),
    {
        let chars = chars_of(s);
        if same_chars(&chars, "lowercase") {
            return Ok(FilenameCase::Lower);
        }
        if same_chars(&chars, "snake_case") {
            return Ok(FilenameCase::Snake);
        }
        if same_chars(&chars, "camelCase") {
            return Ok(FilenameCase::Camel);
        }
        if same_chars(&chars, "kebab-case") {
            return Ok(FilenameCase::Kebab);
        }
        if same_chars(&chars, "Pascal") {
            return Ok(FilenameCase::Pascal);
        }
        if same_chars(&chars, "point.case") {
            return Ok(FilenameCase::Point);
        }
        if same_chars(&chars, "SCREAMING_SNAKE_CASE") {
            return Ok(FilenameCase::ScreamingSnake);
        }
        let mut m = String::from_str("Unknown filename case: ");
        m.append(s);
        Err(m)
    }

    /// Whether `stem` conforms to this style, on its characters.
    fn matches_chars(&self, stem: &Vec<char>) -> (r: bool)
        ensures
            r == conforms(*self, stem@),
    {
        if check_plain_lower(stem) {
            return true;
        }
        match self {
            FilenameCase::Lower => false,
            FilenameCase::Snake => check_joined(stem, '_', false),
            FilenameCase::Camel => check_camel(stem),
            FilenameCase::Kebab => check_joined(stem, '-', false),
            FilenameCase::Pascal => check_pascal(stem),
            FilenameCase::Point => check_joined(stem, '.', false),
            FilenameCase::ScreamingSnake => check_joined(stem, '_', true),
        }
    }

    /// Whether the stem `filename` conforms to this style.
    pub fn matches(&self, filename: &str) -> (r: bool)
        ensures
            r == conforms(*self, filename@),
    {
        let chars = chars_of(filename);
        self.matches_chars(&chars)
    }
}

} // verus!
