//! The validated configuration the linter runs on.

use vstd::prelude::*;

use crate::casing::{case_of_name, FilenameCase};
use crate::exclusion::{all_compile, patterns_view, IgnoreSpec};

verus! {

/// A configuration value the linter cannot run with.
#[derive(Debug, PartialEq, Eq)]
pub enum ConfigError {
    /// A rule set names a style that does not exist; holds the name.
    UnknownCase(String),
    /// An ignore pattern whose derived expression does not compile; holds
    /// the pattern.
    InvalidIgnorePattern(String),
}

/// The rule sets by extension, and the raw ignore patterns.
pub struct FilenameLintConfig {
    /// Each extension (such as `.rs`) with the styles accepted for it.
    pub ls: Vec<(String, Vec<FilenameCase>)>,
    pub ignore: Vec<String>,
}

/// The formats a configuration file may be written in.
#[derive(Debug, Clone, Copy, PartialEq, Eq, Structural)]
pub enum ConfigFormat {
    Json,
    Yaml,
    Toml,
}

impl ConfigFormat {
    /// Where a configuration in this format is looked for.
    pub fn file_name(&self) -> (r: &'static str)
        ensures
            r@ == config_file_name(*self),
    {
        match self {
            ConfigFormat::Json => "./fnlint.config.json",
            ConfigFormat::Yaml => "./fnlint.config.yaml",
            ConfigFormat::Toml => "./fnlint.config.toml",
        }
    }
}

pub open spec fn config_file_name(format: ConfigFormat) -> Seq<char> {
    match format {
        ConfigFormat::Json => "./fnlint.config.json"@,
        ConfigFormat::Yaml => "./fnlint.config.yaml"@,
        ConfigFormat::Toml => "./fnlint.config.toml"@,
    }
}

/// The file a configuration is read from, given which of the three files
/// exist: JSON first, then YAML, then TOML; none when no file exists.
pub fn select_format(json_exists: bool, yaml_exists: bool, toml_exists: bool) -> (r: Option<ConfigFormat>)
    ensures
        json_exists ==> r == Some(ConfigFormat::Json),
        !json_exists && yaml_exists ==> r == Some(ConfigFormat::Yaml),
        !json_exists && !yaml_exists && toml_exists ==> r == Some(ConfigFormat::Toml),
        !json_exists && !yaml_exists && !toml_exists ==> r is None,
{
    if json_exists {
        Some(ConfigFormat::Json)
    } else if yaml_exists {
        Some(ConfigFormat::Yaml)
    } else if toml_exists {
        Some(ConfigFormat::Toml)
    } else {
        None
    }
}

/// Every name stands for a style.
pub open spec fn all_known(names: Seq<String>) -> bool {
    forall|k: int| 0 <= k < names.len() ==> (#[trigger] case_of_name(names[k]@)) is Some
}

/// Reads a list of style names; fails on the first name that stands for no
/// style.
pub fn parse_cases(names: &Vec<String>) -> (r: Result<Vec<FilenameCase>, ConfigError>)
    ensures
        r is Ok <==> all_known(names@),
        r matches Ok(cases) ==> cases@.len() == names@.len() && forall|k: int|
            0 <= k < names@.len() ==> case_of_name(#[trigger] names@[k]@) == Some(cases@[k]),
        r matches Err(e) ==> exists|k: int|
            0 <= k < names@.len() && case_of_name(#[trigger] names@[k]@) is None && (forall|j: int|
                0 <= j < k ==> (#[trigger] case_of_name(names@[j]@)) is Some) && (e matches ConfigError::UnknownCase(
                n,
            ) && n@ == names@[k]@),
{
    let mut cases: Vec<FilenameCase> = Vec::new();
    let mut k: usize = 0;
    while k < names.len()
        invariant
            k <= names@.len(),
            cases@.len() == k,
            forall|j: int| 0 <= j < k ==> case_of_name(#[trigger] names@[j]@) == Some(cases@[j]),
        decreases names@.len() - k,
    {
        match FilenameCase::from_str(names[k].as_str()) {
            Ok(c) => cases.push(c),
            Err(_) => {
                return Err(ConfigError::UnknownCase(names[k].clone()));
            },
        }
        k += 1;
    }
    Ok(cases)
}

/// The rule sets as pairs of an extension and its styles.
pub open spec fn rules_view(ls: Seq<(String, Vec<FilenameCase>)>) -> Seq<(Seq<char>, Seq<FilenameCase>)> {
    ls.map_values(|e: (String, Vec<FilenameCase>)| (e.0@, e.1@))
}

/// The names of each rule set are all known.
pub open spec fn all_rules_known(ls: Seq<(String, Vec<String>)>) -> bool {
    forall|k: int| 0 <= k < ls.len() ==> all_known(#[trigger] ls[k].1@)
}

/// `cases` are the styles the names stand for, in order.
pub open spec fn cases_named(names: Seq<String>, cases: Seq<FilenameCase>) -> bool {
    cases.len() == names.len() && forall|j: int|
        0 <= j < names.len() ==> case_of_name(#[trigger] names[j]@) == Some(cases[j])
}

/// No extension has two rule sets.
pub open spec fn keys_distinct(ls: Seq<(String, Vec<FilenameCase>)>) -> bool {
    forall|i: int, j: int|
        0 <= i < ls.len() && 0 <= j < ls.len() && i != j ==> (#[trigger] ls[i]).0@ != (#[trigger] ls[j]).0@
}

/// No entry after `k` names the extension of entry `k`.
pub open spec fn is_last_key(ls: Seq<(String, Vec<String>)>, k: int) -> bool {
    forall|j: int| k < j < ls.len() ==> (#[trigger] ls[j]).0@ != ls[k].0@
}

/// The rule set is the styles of the last entry for its extension.
pub open spec fn has_last_entry(ls: Seq<(String, Vec<String>)>, rule: (String, Vec<FilenameCase>)) -> bool {
    exists|k: int|
        0 <= k < ls.len() && is_last_key(ls, k) && rule.0@ == (#[trigger] ls[k]).0@ && cases_named(ls[k].1@, rule.1@)
}

/// Some rule set is for the extension.
pub open spec fn has_rule_for(rules: Seq<(String, Vec<FilenameCase>)>, ext: Seq<char>) -> bool {
    exists|i: int| 0 <= i < rules.len() && (#[trigger] rules[i]).0@ == ext
}

/// Each rule set is the styles of the last entry for its extension.
pub open spec fn from_last_entries(ls: Seq<(String, Vec<String>)>, rules: Seq<(String, Vec<FilenameCase>)>) -> bool {
    forall|i: int| 0 <= i < rules.len() ==> has_last_entry(ls, #[trigger] rules[i])
}

/// Every extension of the entries has a rule set.
pub open spec fn covers_keys(ls: Seq<(String, Vec<String>)>, rules: Seq<(String, Vec<FilenameCase>)>) -> bool {
    forall|k: int| 0 <= k < ls.len() ==> has_rule_for(rules, (#[trigger] ls[k]).0@)
}

impl FilenameLintConfig {
    /// Builds a configuration from rule sets given by style names, keeping
    /// one rule set per extension: a later entry for an extension replaces an
    /// earlier one. Fails on the first entry that holds an unknown name.
    pub fn from_names(ls: Vec<(String, Vec<String>)>, ignore: Vec<String>) -> (r: Result<
        FilenameLintConfig,
        ConfigError,
    >)
        ensures
            r is Ok <==> all_rules_known(ls@),
            r matches Ok(config) ==> config.ignore@ == ignore@ && keys_distinct(config.ls@),
            r matches Ok(config) ==> from_last_entries(ls@, config.ls@) && covers_keys(ls@, config.ls@),
            r matches Err(e) ==> (e matches ConfigError::UnknownCase(n) && case_of_name(n@) is None && exists|
                k: int,
                j: int,
            | 0 <= k < ls@.len() && 0 <= j < ls@[k].1@.len() && n@ == (#[trigger] ls@[k].1@[j])@),
    {
        let mut rules: Vec<(String, Vec<FilenameCase>)> = Vec::new();
        // where each rule set came from, and where each entry went
        let ghost mut src: Seq<int> = Seq::empty();
        let ghost mut pos: Seq<int> = Seq::empty();
        let mut k: usize = 0;
        while k < ls.len()
            invariant
                k <= ls@.len(),
                rules@.len() == src.len(),
                pos.len() == k,
                forall|i: int| 0 <= i < k ==> all_known(#[trigger] ls@[i].1@),
                keys_distinct(rules@),
                forall|i: int|
                    0 <= i < rules@.len() ==> 0 <= #[trigger] src[i] < k && rules@[i].0@ == ls@[src[i]].0@
                        && cases_named(ls@[src[i]].1@, rules@[i].1@) && forall|j: int|
                        src[i] < j < k ==> (#[trigger] ls@[j]).0@ != ls@[src[i]].0@,
                forall|j: int| 0 <= j < k ==> 0 <= #[trigger] pos[j] < rules@.len() && rules@[pos[j]].0@ == ls@[j].0@,
            decreases ls@.len() - k,
        {
            match parse_cases(&ls[k].1) {
                Ok(cases) => {
                    let mut idx: usize = 0;
                    while idx < rules.len() && !(rules[idx].0 == ls[k].0)
                        invariant
                            k < ls@.len(),
                            idx <= rules@.len(),
                            forall|i: int| 0 <= i < idx ==> (#[trigger] rules@[i]).0@ != ls@[k as int].0@,
                        decreases rules@.len() - idx,
                    {
                        idx += 1;
                    }
                    let ghost old_rules = rules@;
                    let ghost old_src = src;
                    let ghost old_pos = pos;
                    if idx < rules.len() {
                        rules[idx] = (ls[k].0.clone(), cases);
                        proof {
                            src = src.update(idx as int, k as int);
                            pos = pos.push(idx as int);
                            assert forall|i: int| 0 <= i < rules@.len() && i != idx implies (#[trigger] rules@[i]).0@
                                != ls@[k as int].0@ by {
                                assert(old_rules[i].0@ != old_rules[idx as int].0@);
                            }
                            assert forall|j: int| 0 <= j < k + 1 implies 0 <= #[trigger] pos[j] < rules@.len()
                                && rules@[pos[j]].0@ == ls@[j].0@ by {
                                if j < k {
                                    assert(pos[j] == old_pos[j]);
                                }
                            }
                            assert forall|i: int| 0 <= i < rules@.len() implies 0 <= #[trigger] src[i] < k + 1
                                && rules@[i].0@ == ls@[src[i]].0@ && cases_named(ls@[src[i]].1@, rules@[i].1@)
                                && forall|j: int| src[i] < j < k + 1 ==> (#[trigger] ls@[j]).0@ != ls@[src[i]].0@ by {
                                if i != idx {
                                    assert(src[i] == old_src[i]);
                                    assert(rules@[i] == old_rules[i]);
                                }
                            }
                        }
                    } else {
                        rules.push((ls[k].0.clone(), cases));
                        proof {
                            src = src.push(k as int);
                            pos = pos.push(idx as int);
                            assert forall|j: int| 0 <= j < k + 1 implies 0 <= #[trigger] pos[j] < rules@.len()
                                && rules@[pos[j]].0@ == ls@[j].0@ by {
                                if j < k {
                                    assert(pos[j] == old_pos[j]);
                                    assert(rules@[pos[j]] == old_rules[pos[j]]);
                                }
                            }
                            assert forall|i: int| 0 <= i < rules@.len() implies 0 <= #[trigger] src[i] < k + 1
                                && rules@[i].0@ == ls@[src[i]].0@ && cases_named(ls@[src[i]].1@, rules@[i].1@)
                                && forall|j: int| src[i] < j < k + 1 ==> (#[trigger] ls@[j]).0@ != ls@[src[i]].0@ by {
                                if i < idx {
                                    assert(src[i] == old_src[i]);
                                    assert(rules@[i] == old_rules[i]);
                                }
                            }
                        }
                    }
                },
                Err(e) => {
                    proof {
                        let names = ls@[k as int].1@;
                        let j = choose|j: int|
                            0 <= j < names.len() && case_of_name(#[trigger] names[j]@) is None && (forall|i: int|
                                0 <= i < j ==> (#[trigger] case_of_name(names[i]@)) is Some) && (e matches ConfigError::UnknownCase(
                                n,
                            ) && n@ == names[j]@);
                        assert(ls@[k as int].1@[j] == names[j]);
                    }
                    return Err(e);
                },
            }
            k += 1;
        }
        proof {
            assert forall|i: int| 0 <= i < rules@.len() implies has_last_entry(ls@, #[trigger] rules@[i]) by {
                let m = src[i];
                assert(is_last_key(ls@, m));
                assert(rules@[i].0@ == ls@[m].0@);
            }
            assert forall|k: int| 0 <= k < ls@.len() implies has_rule_for(rules@, (#[trigger] ls@[k]).0@) by {
                let i = pos[k];
                assert(rules@[i].0@ == ls@[k].0@);
            }
        }
        assert(from_last_entries(ls@, rules@));
        assert(covers_keys(ls@, rules@));
        Ok(FilenameLintConfig { ls: rules, ignore })
    }

    /// The matcher for this configuration's ignore patterns; fails when one
    /// of them does not compile.
    pub fn ignore_spec(&self) -> (r: Result<IgnoreSpec, ConfigError>)
        ensures
            r is Ok <==> all_compile(patterns_view(self.ignore@)),
            r matches Ok(spec) ==> spec@ == patterns_view(self.ignore@),
    {
        IgnoreSpec::new(&self.ignore)
    }
}

} // verus!
