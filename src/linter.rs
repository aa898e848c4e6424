//! The lint pass: files grouped by extension, each stem tested against the
//! rule set of its extension.

use std::sync::Arc;

use vstd::prelude::*;

use crate::casing::{case_name, conforms_any, FilenameCase};
use crate::config::{rules_view, FilenameLintConfig};
use crate::text::{basename, basename_start, chars_of, ends_with_seq};

verus! {

/// A file whose stem conforms to none of the styles of its rule set.
pub struct Issue {
    /// The stem that failed.
    pub filename: String,
    /// The rule set it failed.
    pub target: Arc<Vec<FilenameCase>>,
    pub path: String,
}

/// An issue as (stem, rule set, path).
pub type IssueView = (Seq<char>, Seq<FilenameCase>, Seq<char>);

impl View for Issue {
    type V = IssueView;

    open spec fn view(&self) -> IssueView {
        (self.filename@, self.target@, self.path@)
    }
}

impl Issue {
    /// The diagnostic line: the stem, then the styles of the rule set.
    pub fn message(&self) -> (r: String)
        ensures
            r@ == issue_message(self@),
    {
        let mut out = String::from_str("Filename ");
        out.append(self.filename.as_str());
        out.append(" does not match any of the patterns: ");
        let ghost head = out@;
        let cases: &Vec<FilenameCase> = &*self.target;
        let mut j: usize = 0;
        while j < cases.len()
            invariant
                j <= cases@.len(),
                cases@ == self.target@,
                out@ == head + case_list(cases@.subrange(0, j as int)),
            decreases cases@.len() - j,
        {
            let ghost prev = cases@.subrange(0, j as int);
            assert(cases@.subrange(0, j + 1).drop_last() =~= prev);
            if j > 0 {
                out.append(", ");
            }
            out.append(cases[j].name());
            proof {
                if j == 0 {
                    assert(prev =~= Seq::<FilenameCase>::empty());
                }
            }
            assert(out@ =~= head + case_list(cases@.subrange(0, j + 1)));
            j += 1;
        }
        assert(cases@.subrange(0, cases@.len() as int) =~= cases@);
        out
    }
}

/// `s` with one `ext` removed from its end, when it ends with it.
pub open spec fn strip_suffix(s: Seq<char>, ext: Seq<char>) -> Seq<char> {
    if ext.len() > 0 && ends_with_seq(s, ext) {
        s.subrange(0, s.len() - ext.len())
    } else {
        s
    }
}

/// The stem of a path: its basename without the extension.
pub open spec fn stem_of(path: Seq<char>, ext: Seq<char>) -> Seq<char> {
    strip_suffix(basename(path), ext)
}

/// The issue a file raises against a rule set, if any.
pub open spec fn issue_for(path: Seq<char>, cases: Seq<FilenameCase>, ext: Seq<char>) -> Option<IssueView> {
    let stem = stem_of(path, ext);
    if conforms_any(cases, stem) {
        None
    } else {
        Some((stem, cases, path))
    }
}

/// The issues of a list of files, in the order of the files.
pub open spec fn issues_for(files: Seq<Seq<char>>, ext: Seq<char>, cases: Seq<FilenameCase>) -> Seq<IssueView>
    decreases files.len(),
{
    if files.len() == 0 {
        Seq::empty()
    } else {
        let prev = issues_for(files.drop_last(), ext, cases);
        match issue_for(files.last(), cases, ext) {
            Some(issue) => prev.push(issue),
            None => prev,
        }
    }
}

/// The files whose path ends with the extension, in order.
pub open spec fn with_ext(files: Seq<Seq<char>>, ext: Seq<char>) -> Seq<Seq<char>>
    decreases files.len(),
{
    if files.len() == 0 {
        Seq::empty()
    } else if ends_with_seq(files.last(), ext) {
        with_ext(files.drop_last(), ext).push(files.last())
    } else {
        with_ext(files.drop_last(), ext)
    }
}

/// The issues of every rule set, rule set by rule set.
pub open spec fn lint_all(rules: Seq<(Seq<char>, Seq<FilenameCase>)>, files: Seq<Seq<char>>) -> Seq<IssueView>
    decreases rules.len(),
{
    if rules.len() == 0 {
        Seq::empty()
    } else {
        let (ext, cases) = rules.last();
        lint_all(rules.drop_last(), files) + issues_for(with_ext(files, ext), ext, cases)
    }
}

/// The styles joined by `, `, as diagnostics list them.
pub open spec fn case_list(cases: Seq<FilenameCase>) -> Seq<char>
    decreases cases.len(),
{
    if cases.len() == 0 {
        Seq::empty()
    } else if cases.len() == 1 {
        case_name(cases[0])
    } else {
        case_list(cases.drop_last()) + ", "@ + case_name(cases.last())
    }
}

/// The diagnostic line of an issue.
pub open spec fn issue_message(issue: IssueView) -> Seq<char> {
    "Filename "@ + issue.0 + " does not match any of the patterns: "@ + case_list(issue.1)
}

proof fn lemma_push_contains<A>(s: Seq<A>, y: A, x: A)
    ensures
        s.push(y).contains(x) <==> s.contains(x) || y == x,
{
    if s.contains(x) {
        let i = choose|i: int| 0 <= i < s.len() && s[i] == x;
        assert(s.push(y)[i] == x);
    }
    if y == x {
        assert(s.push(y)[s.len() as int] == x);
    }
}

proof fn lemma_concat_contains<A>(a: Seq<A>, b: Seq<A>, x: A)
    ensures
        (a + b).contains(x) <==> a.contains(x) || b.contains(x),
{
    if a.contains(x) {
        let i = choose|i: int| 0 <= i < a.len() && a[i] == x;
        assert((a + b)[i] == x);
    }
    if b.contains(x) {
        let i = choose|i: int| 0 <= i < b.len() && b[i] == x;
        assert((a + b)[a.len() + i] == x);
    }
    if (a + b).contains(x) {
        let i = choose|i: int| 0 <= i < (a + b).len() && (a + b)[i] == x;
        if i < a.len() {
            assert(a[i] == x);
        } else {
            assert(b[i - a.len()] == x);
        }
    }
}

proof fn lemma_drop_last_contains<A>(s: Seq<A>, x: A)
    requires
        s.len() > 0,
    ensures
        s.contains(x) <==> s.drop_last().contains(x) || s.last() == x,
{
    lemma_push_contains(s.drop_last(), s.last(), x);
    assert(s.drop_last().push(s.last()) =~= s);
}

proof fn lemma_with_ext_contains(files: Seq<Seq<char>>, ext: Seq<char>, x: Seq<char>)
    ensures
        with_ext(files, ext).contains(x) <==> files.contains(x) && ends_with_seq(x, ext),
    decreases files.len(),
{
    if files.len() > 0 {
        lemma_with_ext_contains(files.drop_last(), ext, x);
        lemma_drop_last_contains(files, x);
        lemma_push_contains(with_ext(files.drop_last(), ext), files.last(), x);
    }
}

proof fn lemma_issues_for_contains(files: Seq<Seq<char>>, ext: Seq<char>, cases: Seq<FilenameCase>, issue: IssueView)
    ensures
        issues_for(files, ext, cases).contains(issue) <==> files.contains(issue.2) && issue_for(issue.2, cases, ext)
            == Some(issue),
    decreases files.len(),
{
    if files.len() > 0 {
        lemma_issues_for_contains(files.drop_last(), ext, cases, issue);
        lemma_drop_last_contains(files, issue.2);
        let prev = issues_for(files.drop_last(), ext, cases);
        match issue_for(files.last(), cases, ext) {
            Some(i) => lemma_push_contains(prev, i, issue),
            None => {},
        }
    }
}

/// Which issues a lint pass raises: one for a file of the list, tested
/// against a rule set whose extension ends its path.
proof fn lemma_lint_all_contains(
    rules: Seq<(Seq<char>, Seq<FilenameCase>)>,
    files: Seq<Seq<char>>,
    issue: IssueView,
)
    ensures
        lint_all(rules, files).contains(issue) <==> files.contains(issue.2) && exists|k: int|
            0 <= k < rules.len() && ends_with_seq(issue.2, (#[trigger] rules[k]).0) && issue_for(
                issue.2,
                rules[k].1,
                rules[k].0,
            ) == Some(issue),
    decreases rules.len(),
{
    if rules.len() > 0 {
        let (ext, cases) = rules.last();
        let last = rules.len() - 1;
        lemma_lint_all_contains(rules.drop_last(), files, issue);
        lemma_concat_contains(
            lint_all(rules.drop_last(), files),
            issues_for(with_ext(files, ext), ext, cases),
            issue,
        );
        lemma_issues_for_contains(with_ext(files, ext), ext, cases, issue);
        lemma_with_ext_contains(files, ext, issue.2);
        if lint_all(rules, files).contains(issue) {
            if !lint_all(rules.drop_last(), files).contains(issue) {
                assert(rules[last] == (ext, cases));
            } else {
                let k = choose|k: int|
                    0 <= k < rules.drop_last().len() && ends_with_seq(issue.2, (#[trigger] rules.drop_last()[k]).0)
                        && issue_for(issue.2, rules.drop_last()[k].1, rules.drop_last()[k].0) == Some(issue);
                assert(rules[k] == rules.drop_last()[k]);
            }
        }
        if files.contains(issue.2) && exists|k: int|
            0 <= k < rules.len() && ends_with_seq(issue.2, (#[trigger] rules[k]).0) && issue_for(
                issue.2,
                rules[k].1,
                rules[k].0,
            ) == Some(issue) {
            let k = choose|k: int|
                0 <= k < rules.len() && ends_with_seq(issue.2, (#[trigger] rules[k]).0) && issue_for(
                    issue.2,
                    rules[k].1,
                    rules[k].0,
                ) == Some(issue);
            if k < last {
                assert(rules.drop_last()[k] == rules[k]);
            }
        }
    }
}

/// The issues of a lint pass, as a set, depend on the set of files alone:
/// two scans of an unchanged tree that list the same files, in any order,
/// raise the same issues.
pub proof fn lemma_lint_order_independent(
    rules: Seq<(Seq<char>, Seq<FilenameCase>)>,
    files1: Seq<Seq<char>>,
    files2: Seq<Seq<char>>,
)
    requires
        files1.to_set() == files2.to_set(),
    ensures
        lint_all(rules, files1).to_set() == lint_all(rules, files2).to_set(),
{
    assert forall|issue: IssueView| #[trigger] lint_all(rules, files1).to_set().contains(issue) == lint_all(
        rules,
        files2,
    ).to_set().contains(issue) by {
        lemma_lint_all_contains(rules, files1, issue);
        lemma_lint_all_contains(rules, files2, issue);
        assert(files1.to_set().contains(issue.2) == files1.contains(issue.2));
        assert(files2.to_set().contains(issue.2) == files2.contains(issue.2));
        assert(files1.contains(issue.2) == files2.contains(issue.2));
        assert(lint_all(rules, files1).to_set().contains(issue) == lint_all(rules, files1).contains(issue));
        assert(lint_all(rules, files2).to_set().contains(issue) == lint_all(rules, files2).contains(issue));
    }
    assert(lint_all(rules, files1).to_set() =~= lint_all(rules, files2).to_set());
}

/// A file whose path ends with no configured extension never appears in
/// the issues, whatever its name.
pub proof fn lemma_unconfigured_extension_silent(
    rules: Seq<(Seq<char>, Seq<FilenameCase>)>,
    files: Seq<Seq<char>>,
    path: Seq<char>,
)
    requires
        forall|k: int| 0 <= k < rules.len() ==> !ends_with_seq(path, (#[trigger] rules[k]).0),
    ensures
        forall|i: int| 0 <= i < lint_all(rules, files).len() ==> (#[trigger] lint_all(rules, files)[i]).2 != path,
{
    assert forall|i: int| 0 <= i < lint_all(rules, files).len() implies (#[trigger] lint_all(rules, files)[i]).2
        != path by {
        let issue = lint_all(rules, files)[i];
        assert(lint_all(rules, files).contains(issue));
        lemma_lint_all_contains(rules, files, issue);
    }
}

/// Every issue raised fails each style of its rule set: no stem that
/// conforms is reported.
pub proof fn lemma_issues_fail_every_style(
    rules: Seq<(Seq<char>, Seq<FilenameCase>)>,
    files: Seq<Seq<char>>,
    i: int,
)
    requires
        0 <= i < lint_all(rules, files).len(),
    ensures
        forall|k: int|
            0 <= k < lint_all(rules, files)[i].1.len() ==> !crate::casing::conforms(
                #[trigger] lint_all(rules, files)[i].1[k],
                lint_all(rules, files)[i].0,
            ),
{
    let issue = lint_all(rules, files)[i];
    assert(lint_all(rules, files).contains(issue));
    lemma_lint_all_contains(rules, files, issue);
}

fn ends_with_chars(s: &Vec<char>, start: usize, end: usize, suffix: &Vec<char>) -> (r: bool)
    requires
        start <= end <= s@.len(),
    ensures
        r == ends_with_seq(s@.subrange(start as int, end as int), suffix@),
{
    let m = suffix.len();
    if m > end - start {
        return false;
    }
    let base = end - m;
    let ghost t = s@.subrange(start as int, end as int);
    let mut k: usize = 0;
    while k < m
        invariant
            m == suffix@.len(),
            start <= base,
            base + m == end,
            end <= s@.len(),
            t == s@.subrange(start as int, end as int),
            k <= m,
            forall|j: int| 0 <= j < k ==> s@[base + j] == suffix@[j],
        decreases m - k,
    {
        if s[base + k] != suffix[k] {
            assert(t.subrange(t.len() - m, t.len() as int)[k as int] != suffix@[k as int]);
            return false;
        }
        k += 1;
    }
    assert(t.subrange(t.len() - m, t.len() as int) =~= suffix@);
    true
}

/// The end of the stem inside `s[start..end]`: one trailing `ext` removed.
fn trim_end(s: &Vec<char>, start: usize, end: usize, ext: &Vec<char>) -> (r: usize)
    requires
        start <= end <= s@.len(),
    ensures
        start <= r <= end,
        s@.subrange(start as int, r as int) == strip_suffix(s@.subrange(start as int, end as int), ext@),
{
    if ext.len() > 0 && ends_with_chars(s, start, end, ext) {
        let ghost t = s@.subrange(start as int, end as int);
        assert(t.subrange(0, t.len() - ext@.len()) =~= s@.subrange(start as int, end - ext@.len()));
        end - ext.len()
    } else {
        end
    }
}

/// Tests one file against a rule set; one `ext` is stripped from the end of its
/// basename to give the stem.
pub fn lint_name(path: &str, patterns: &Arc<Vec<FilenameCase>>, ext: &str) -> (r: Option<Issue>)
    ensures
        match r {
            Some(issue) => issue_for(path@, patterns@, ext@) == Some(issue@),
            None => issue_for(path@, patterns@, ext@) is None,
        },
{
    let chars = chars_of(path);
    let ext_chars = chars_of(ext);
    let start = basename_start(&chars);
    let end = trim_end(&chars, start, chars.len(), &ext_chars);
    assert(chars@.subrange(start as int, chars@.len() as int) == basename(path@));
    let stem = path.substring_char(start, end);
    let cases: &Vec<FilenameCase> = &**patterns;
    let mut k: usize = 0;
    while k < cases.len()
        invariant
            k <= cases@.len(),
            cases@ == patterns@,
            stem@ == stem_of(path@, ext@),
            forall|j: int| 0 <= j < k ==> !crate::casing::conforms(#[trigger] cases@[j], stem@),
        decreases cases@.len() - k,
    {
        if cases[k].matches(stem) {
            return None;
        }
        k += 1;
    }
    let mut target: Vec<FilenameCase> = Vec::new();
    let mut j: usize = 0;
    while j < cases.len()
        invariant
            j <= cases@.len(),
            target@ == cases@.subrange(0, j as int),
        decreases cases@.len() - j,
    {
        target.push(cases[j]);
        j += 1;
        assert(target@ =~= cases@.subrange(0, j as int));
    }
    assert(target@ =~= cases@);
    Some(Issue { filename: stem.to_owned(), target: Arc::new(target), path: path.to_owned() })
}

/// Tests each file against a rule set, keeping the issues in file order.
pub fn lint_files(files: Vec<String>, ext: String, patterns: &Arc<Vec<FilenameCase>>) -> (r: Vec<Issue>)
    ensures
        r@.map_values(|i: Issue| i@) == issues_for(files@.map_values(|f: String| f@), ext@, patterns@),
{
    let ghost fv = files@.map_values(|f: String| f@);
    let mut out: Vec<Issue> = Vec::new();
    let mut k: usize = 0;
    while k < files.len()
        invariant
            k <= files@.len(),
            fv == files@.map_values(|f: String| f@),
            out@.map_values(|i: Issue| i@) == issues_for(fv.subrange(0, k as int), ext@, patterns@),
        decreases files@.len() - k,
    {
        assert(fv.subrange(0, k + 1).drop_last() =~= fv.subrange(0, k as int));
        match lint_name(files[k].as_str(), patterns, ext.as_str()) {
            Some(issue) => {
                let ghost before = out@;
                out.push(issue);
                assert(out@.map_values(|i: Issue| i@) =~= before.map_values(|i: Issue| i@).push(issue@));
            },
            None => {},
        }
        k += 1;
    }
    assert(fv.subrange(0, files@.len() as int) =~= fv);
    out
}

/// Lints every configured extension: the files whose path ends with it are
/// tested against its rule set; files of other extensions are never tested.
pub fn lint_filenames(config: &Arc<FilenameLintConfig>, file_list: Vec<String>) -> (r: Vec<Issue>)
    ensures
        r@.map_values(|i: Issue| i@) == lint_all(rules_view(config.ls@), file_list@.map_values(|f: String| f@)),
{
    let ghost fv = file_list@.map_values(|f: String| f@);
    let ghost rules = rules_view(config.ls@);
    let ls = &config.ls;
    let mut result: Vec<Issue> = Vec::new();
    let mut k: usize = 0;
    while k < ls.len()
        invariant
            k <= ls@.len(),
            ls@ == config.ls@,
            rules == rules_view(config.ls@),
            fv == file_list@.map_values(|f: String| f@),
            result@.map_values(|i: Issue| i@) == lint_all(rules.subrange(0, k as int), fv),
        decreases ls@.len() - k,
    {
        let ext = &ls[k].0;
        let ext_chars = chars_of(ext.as_str());
        let mut cases: Vec<FilenameCase> = Vec::new();
        let mut j: usize = 0;
        while j < ls[k].1.len()
            invariant
                k < ls@.len(),
                j <= ls@[k as int].1@.len(),
                cases@ == ls@[k as int].1@.subrange(0, j as int),
            decreases ls@[k as int].1@.len() - j,
        {
            cases.push(ls[k].1[j]);
            j += 1;
            assert(cases@ =~= ls@[k as int].1@.subrange(0, j as int));
        }
        assert(cases@ =~= ls@[k as int].1@);
        let patterns = Arc::new(cases);
        let mut files: Vec<String> = Vec::new();
        let mut i: usize = 0;
        while i < file_list.len()
            invariant
                i <= file_list@.len(),
                fv == file_list@.map_values(|f: String| f@),
                ext_chars@ == ext@,
                files@.map_values(|f: String| f@) == with_ext(fv.subrange(0, i as int), ext@),
            decreases file_list@.len() - i,
        {
            let fc = chars_of(file_list[i].as_str());
            assert(fv.subrange(0, i + 1).drop_last() =~= fv.subrange(0, i as int));
            assert(fc@.subrange(0, fc@.len() as int) =~= fc@);
            if ends_with_chars(&fc, 0, fc.len(), &ext_chars) {
                let ghost before = files@;
                files.push(file_list[i].clone());
                assert(files@.map_values(|f: String| f@) =~= before.map_values(|f: String| f@).push(fv[i as int]));
            }
            i += 1;
        }
        assert(fv.subrange(0, file_list@.len() as int) =~= fv);
        let mut issues = lint_files(files, ext.clone(), &patterns);
        assert(rules.subrange(0, k + 1).drop_last() =~= rules.subrange(0, k as int));
        assert(rules[k as int] == (ext@, ls@[k as int].1@));
        let ghost before = result@;
        let ghost added = issues@;
        result.append(&mut issues);
        assert(result@.map_values(|i: Issue| i@) =~= before.map_values(|i: Issue| i@) + added.map_values(
            |i: Issue| i@,
        ));
        k += 1;
    }
    assert(rules.subrange(0, ls@.len() as int) =~= rules);
    result
}

} // verus!
