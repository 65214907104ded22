//! Ownership resolution: which rule decides a path's owners.
//!
//! Rules are scanned in file order and the last rule whose pattern
//! matches the path wins.  Ordering in the source file is the only
//! precedence signal; there is no specificity heuristic.  A rule whose
//! pattern is subsumed by a later rule's pattern is dead: it can never
//! win resolution.

use vstd::prelude::*;

use crate::parser::CodeownersLine;
use crate::parser::LineContentModel;
use crate::parser::LineModel;
use crate::parser::ParsedLine;
use crate::parser::line_models;
use crate::parser::parse_codeowners_file_with_positions;
use crate::parser::parse_spec;
use crate::pattern::pat_matches;
use crate::pattern::pattern_matches;
use crate::pattern::pattern_subsumes;
use crate::pattern::subsumes_spec;
use crate::text::clone_strings;
use crate::text::str_views;

verus! {

/// True when the line holds a rule whose pattern matches `path`.
pub open spec fn rule_matches(m: LineModel, path: Seq<char>) -> bool {
    match m.content {
        LineContentModel::Rule { pattern, owners } => pat_matches(pattern, path),
        LineContentModel::Comment => false,
    }
}

/// True when some rule in the sequence matches `path`.
pub open spec fn any_rule_matches(rules: Seq<LineModel>, path: Seq<char>) -> bool {
    exists|i: int| 0 <= i < rules.len() && rule_matches(rules[i], path)
}

/// The pattern of a rule line, or the empty sequence for a line that
/// holds no rule.
pub open spec fn model_pattern(m: LineModel) -> Seq<char> {
    match m.content {
        LineContentModel::Rule { pattern, owners } => pattern,
        LineContentModel::Comment => Seq::empty(),
    }
}

/// The owners of a rule line, or the empty sequence for a line that
/// holds no rule.
pub open spec fn model_owners(m: LineModel) -> Seq<Seq<char>> {
    match m.content {
        LineContentModel::Rule { pattern, owners } => owners,
        LineContentModel::Comment => Seq::empty(),
    }
}

/// The index of the winning rule for `path`: the last rule in file
/// order whose pattern matches, or `None` when no rule matches.
pub open spec fn resolve_spec(rules: Seq<LineModel>, path: Seq<char>) -> Option<int>
    decreases rules.len(),
{
    if rules.len() == 0 {
        None
    } else if rule_matches(rules.last(), path) {
        Some((rules.len() - 1) as int)
    } else {
        resolve_spec(rules.drop_last(), path)
    }
}

/// True when the rule at `i` is dead: some later rule's pattern
/// subsumes its pattern, so resolution can never pick it.
pub open spec fn rule_dead(rules: Seq<LineModel>, i: int) -> bool {
    exists|j: int|
        i < j < rules.len() && rules[i].content is Rule && rules[j].content is Rule
            && subsumes_spec(model_pattern(rules[i]), model_pattern(rules[j]))
}

/// True when this parsed line holds a rule whose pattern matches
/// `path`.
pub fn line_matches(rule: &ParsedLine, path: &str) -> (r: bool)
    ensures
        r == rule_matches(rule@, path@),
{
    match &rule.content {
        CodeownersLine::Rule { pattern, owners: _ } => pattern_matches(pattern.as_str(), path),
        CodeownersLine::Comment => false,
    }
}

/// True when at least one rule in the sequence matches `path`.  This
/// is membership in ownership, not resolution: a rule with an empty
/// owners list still counts.
pub fn rules_match_path(rules: &Vec<ParsedLine>, path: &str) -> (r: bool)
    ensures
        r == any_rule_matches(line_models(rules@), path@),
{
    let ghost ms = line_models(rules@);
    let n: usize = rules.len();
    let mut i: usize = 0;
    while i < n
        invariant
            i <= n,
            n == rules@.len(),
            ms == line_models(rules@),
            forall|j: int| 0 <= j < i ==> !rule_matches(ms[j], path@),
        decreases n - i,
    {
        proof {
            assert(ms[i as int] == rules@[i as int]@);
        }
        if line_matches(&rules[i], path) {
            proof {
                assert(rule_matches(ms[i as int], path@));
            }
            return true;
        }
        i = i + 1;
    }
    false
}

/// Scans the rules in file order, remembering each match, and returns
/// the index of the last rule whose pattern matches `path`.
pub fn resolve(rules: &Vec<ParsedLine>, path: &str) -> (r: Option<usize>)
    ensures
        match r {
            Some(i) => i < rules@.len() && resolve_spec(line_models(rules@), path@) == Some(
                i as int,
            ),
            None => resolve_spec(line_models(rules@), path@) is None,
        },
{
    let ghost ms = line_models(rules@);
    let mut best: Option<usize> = None;
    let n: usize = rules.len();
    let mut i: usize = 0;
    proof {
        assert(ms.take(0) =~= Seq::<LineModel>::empty());
    }
    while i < n
        invariant
            i <= n,
            n == rules@.len(),
            ms == line_models(rules@),
            match best {
                Some(b) => b < i && resolve_spec(ms.take(i as int), path@) == Some(b as int),
                None => resolve_spec(ms.take(i as int), path@) is None,
            },
        decreases n - i,
    {
        proof {
            assert(ms.take(i + 1 as int).drop_last() =~= ms.take(i as int));
            assert(ms.take(i + 1 as int).last() == ms[i as int]);
            assert(ms[i as int] == rules@[i as int]@);
        }
        if line_matches(&rules[i], path) {
            best = Some(i);
        }
        i = i + 1;
    }
    proof {
        assert(ms.take(n as int) =~= ms);
    }
    best
}

/// Last-match-wins, characterised: when resolution returns an index,
/// that rule matches and no later rule does; when it returns `None`,
/// no rule matches at all.  This is exactly what a linear scan that
/// keeps the last matching rule computes.
pub proof fn lemma_resolve_last_match_wins(rules: Seq<LineModel>, path: Seq<char>)
    ensures
        match resolve_spec(rules, path) {
            Some(i) => 0 <= i < rules.len() && rule_matches(rules[i], path) && (forall|j: int|
                i < j < rules.len() ==> !rule_matches(rules[j], path)),
            None => forall|j: int| 0 <= j < rules.len() ==> !rule_matches(rules[j], path),
        },
    decreases rules.len(),
{
    if rules.len() == 0 {
    } else if rule_matches(rules.last(), path) {
    } else {
        lemma_resolve_last_match_wins(rules.drop_last(), path);
        assert(forall|j: int|
            0 <= j < rules.len() - 1 ==> rules.drop_last()[j] == rules[j]);
    }
}

/// The winning rule that decided a path's owners.
pub struct CheckResult {
    pub pattern: String,
    pub line_number: usize,
    pub owners: Vec<String>,
}

/// Parses the rule file `content` and resolves `path` against it:
/// the returned rule is the last one in file order whose pattern
/// matches `path`, with its owners in source order, or `None` when no
/// rule matches.
pub fn check_file_ownership(content: &str, path: &str) -> (r: Option<CheckResult>)
    ensures
        ({
            let rules = parse_spec(content@);
            match r {
                Some(cr) => match resolve_spec(rules, path@) {
                    Some(i) => {
                        &&& cr.pattern@ == model_pattern(rules[i])
                        &&& cr.line_number as int == rules[i].line_number
                        &&& str_views(cr.owners@) == model_owners(rules[i])
                        &&& rules[i].content is Rule
                    },
                    None => false,
                },
                None => resolve_spec(rules, path@) is None,
            }
        }),
{
    let rules = parse_codeowners_file_with_positions(content);
    match resolve(&rules, path) {
        Some(i) => {
            proof {
                lemma_resolve_last_match_wins(line_models(rules@), path@);
                assert(line_models(rules@)[i as int] == rules@[i as int]@);
            }
            match &rules[i].content {
                CodeownersLine::Rule { pattern, owners } => Some(
                    CheckResult {
                        pattern: pattern.clone(),
                        line_number: rules[i].line_number,
                        owners: clone_strings(owners),
                    },
                ),
                CodeownersLine::Comment => {
                    proof {
                        assert(false);
                    }
                    None
                },
            }
        },
        None => None,
    }
}

fn rule_is_dead(rules: &Vec<ParsedLine>, i: usize) -> (r: bool)
    requires
        i < rules@.len(),
    ensures
        r == rule_dead(line_models(rules@), i as int),
{
    let ghost ms = line_models(rules@);
    proof {
        assert(ms[i as int] == rules@[i as int]@);
    }
    let n: usize = rules.len();
    match &rules[i].content {
        CodeownersLine::Comment => {
            return false;
        },
        CodeownersLine::Rule { pattern, owners: _ } => {
            let mut j: usize = i + 1;
            while j < n
                invariant
                    i < j <= n,
                    n == rules@.len(),
                    ms == line_models(rules@),
                    ms[i as int].content is Rule,
                    pattern@ == model_pattern(ms[i as int]),
                    forall|k: int|
                        i < k < j ==> !(ms[k].content is Rule && subsumes_spec(
                            model_pattern(ms[i as int]),
                            model_pattern(ms[k]),
                        )),
                decreases n - j,
            {
                proof {
                    assert(ms[j as int] == rules@[j as int]@);
                }
                match &rules[j].content {
                    CodeownersLine::Rule { pattern: pat_j, owners: _ } => {
                        if pattern_subsumes(pattern.as_str(), pat_j.as_str()) {
                            proof {
                                assert(ms[j as int].content is Rule && subsumes_spec(
                                    model_pattern(ms[i as int]),
                                    model_pattern(ms[j as int]),
                                ));
                            }
                            return true;
                        }
                    },
                    CodeownersLine::Comment => {},
                }
                j = j + 1;
            }
            false
        },
    }
}

/// For each rule, whether it is dead: subsumed by some later rule, so
/// that resolution can never pick it.
pub fn find_dead_rules(rules: &Vec<ParsedLine>) -> (r: Vec<bool>)
    ensures
        r@.len() == rules@.len(),
        forall|i: int|
            0 <= i < rules@.len() ==> r@[i] == rule_dead(line_models(rules@), i),
{
    let n: usize = rules.len();
    let mut out: Vec<bool> = Vec::new();
    let mut i: usize = 0;
    while i < n
        invariant
            i <= n,
            n == rules@.len(),
            out@.len() == i,
            forall|k: int| 0 <= k < i ==> out@[k] == rule_dead(line_models(rules@), k),
        decreases n - i,
    {
        let dead = rule_is_dead(rules, i);
        out.push(dead);
        i = i + 1;
    }
    out
}

} // verus!
