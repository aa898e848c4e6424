//! Character-level helpers on strings, stated over `Seq<char>` views.

use vstd::prelude::*;

verus! {

/// `needle` occurs as a contiguous run somewhere in `hay`.
pub open spec fn contains_seq(hay: Seq<char>, needle: Seq<char>) -> bool {
    exists|i: int| 0 <= i <= hay.len() - needle.len() && #[trigger] hay.subrange(i, i + needle.len()) == needle
}

/// `s` ends with `suffix`.
pub open spec fn ends_with_seq(s: Seq<char>, suffix: Seq<char>) -> bool {
    suffix.len() <= s.len() && s.subrange(s.len() - suffix.len(), s.len() as int) == suffix
}

/// Copies the characters of a string into a vector.
pub fn chars_of(s: &str) -> (r: Vec<char>)
    ensures
        r@ == s@,
{
    let n = s.unicode_len();
    let mut r: Vec<char> = Vec::new();
    let mut i: usize = 0;
    while i < n
        invariant
            n == s@.len(),
            i <= n,
            r@ == s@.subrange(0, i as int),
        decreases n - i,
    {
        r.push(s.get_char(i));
        i += 1;
    }
    assert(r@ =~= s@);
    r
}

/// Whether the characters in `a` spell out `b` exactly.
pub fn same_chars(a: &Vec<char>, b: &str) -> (r: bool)
    ensures
        r == (a@ == b@),
{
    let n = b.unicode_len();
    if a.len() != n {
        return false;
    }
    let mut i: usize = 0;
    while i < n
        invariant
            n == b@.len(),
            n == a@.len(),
            i <= n,
            a@.subrange(0, i as int) == b@.subrange(0, i as int),
        decreases n - i,
    {
        if a[i] != b.get_char(i) {
            return false;
        }
        assert(a@.subrange(0, i + 1) =~= a@.subrange(0, i as int).push(a@[i as int]));
        assert(b@.subrange(0, i + 1) =~= b@.subrange(0, i as int).push(b@[i as int]));
        i += 1;
    }
    assert(a@ =~= a@.subrange(0, n as int));
    assert(b@ =~= b@.subrange(0, n as int));
    true
}

/// What follows the last `/` of a path (the whole path when it has none).
pub open spec fn basename(s: Seq<char>) -> Seq<char>
    decreases s.len(),
{
    if s.len() == 0 {
        s
    } else if s.last() == '/' {
        Seq::empty()
    } else {
        basename(s.drop_last()).push(s.last())
    }
}

/// The index at which the basename of `s` starts.
pub fn basename_start(s: &Vec<char>) -> (r: usize)
    ensures
        r <= s@.len(),
        basename(s@) == s@.subrange(r as int, s@.len() as int),
{
    let n = s.len();
    let mut start: usize = 0;
    let mut i: usize = 0;
    while i < n
        invariant
            n == s@.len(),
            start <= i <= n,
            basename(s@.subrange(0, i as int)) == s@.subrange(start as int, i as int),
        decreases n - i,
    {
        assert(s@.subrange(0, i + 1).drop_last() =~= s@.subrange(0, i as int));
        if s[i] == '/' {
            start = i + 1;
            assert(s@.subrange(start as int, i + 1) =~= Seq::<char>::empty());
        } else {
            assert(s@.subrange(start as int, i + 1) =~= s@.subrange(start as int, i as int).push(s@[i as int]));
        }
        i += 1;
    }
    assert(s@.subrange(0, n as int) =~= s@);
    start
}

/// Whether `needle[a..b]` occurs in `hay`.
pub fn contains_range(hay: &Vec<char>, needle: &Vec<char>, a: usize, b: usize) -> (r: bool)
    requires
        a <= b <= needle@.len(),
    ensures
        r == contains_seq(hay@, needle@.subrange(a as int, b as int)),
{
    let ghost sub = needle@.subrange(a as int, b as int);
    let m = b - a;
    if m == 0 {
        assert(hay@.subrange(0int, 0int + sub.len()) =~= sub);
        assert(0 <= 0 <= hay@.len() - sub.len());
        return true;
    }
    if m > hay.len() {
        return false;
    }
    let last = hay.len() - m;
    let mut i: usize = 0;
    while i <= last
        invariant
            m == sub.len(),
            m > 0,
            last + m == hay.len(),
            sub == needle@.subrange(a as int, b as int),
            a <= b <= needle@.len(),
            forall|j: int| 0 <= j < i && j <= last ==> #[trigger] hay@.subrange(j, j + m) != sub,
        decreases last + 1 - i,
    {
        let mut k: usize = 0;
        let mut same = true;
        assert(hay@.subrange(i as int, i as int) =~= sub.subrange(0, 0));
        while k < m
            invariant
                m == sub.len(),
                i <= last,
                last + m == hay.len(),
                sub == needle@.subrange(a as int, b as int),
                a <= b <= needle@.len(),
                k <= m,
                same == (hay@.subrange(i as int, i + k) == sub.subrange(0, k as int)),
            decreases m - k,
        {
            if same && hay[i + k] != needle[a + k] {
                same = false;
                assert(hay@.subrange(i as int, i + k + 1)[k as int] != sub.subrange(0, k + 1)[k as int]);
            } else if same {
                assert(hay@.subrange(i as int, i + k + 1) =~= hay@.subrange(i as int, i + k).push(hay@[i + k]));
                assert(sub.subrange(0, k + 1) =~= sub.subrange(0, k as int).push(sub[k as int]));
            } else {
                assert(!(hay@.subrange(i as int, i + k + 1) =~= sub.subrange(0, k + 1))) by {
                    if hay@.subrange(i as int, i + k + 1) =~= sub.subrange(0, k + 1) {
                        assert(hay@.subrange(i as int, i + k) =~= sub.subrange(0, k as int));
                    }
                }
            }
            k += 1;
        }
        assert(sub.subrange(0, m as int) =~= sub);
        if same {
            return true;
        }
        i += 1;
    }
    false
}

} // verus!
