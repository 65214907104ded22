//! Parsing of ownership rule files.
//!
//! The input text is split into lines.  A line whose characters are all
//! whitespace is blank and yields nothing; a line whose first
//! non-whitespace character is `#` is a comment and yields nothing; any
//! other line yields one rule: its first whitespace-delimited token is
//! the pattern and the remaining tokens are the owners, in order.  A
//! rule line may have no owner tokens at all; such a rule is kept, with
//! an empty owners list, so that "explicitly unowned" stays observable.
//! Line numbers are zero-based; the character offsets of the pattern
//! token and of the first owner token are recorded for diagnostics.

use vstd::prelude::*;

use crate::text::char_is_space;
use crate::text::chars_to_string;
use crate::text::is_space;
use crate::text::seq_views;
use crate::text::split_chars;
use crate::text::split_on;
use crate::text::str_views;
use crate::text::subvec;
use crate::text::to_chars;

verus! {

/// One parsed line of a rule file.
pub enum CodeownersLine {
    /// A rule: a pattern and its owners, in source order.
    Rule { pattern: String, owners: Vec<String> },
    /// A line that holds no rule.
    Comment,
}

/// A parsed line together with its position information.  Offsets are
/// character offsets within the line; `owners_start` is where the first
/// owner token begins, or the line length when there are no owners.
pub struct ParsedLine {
    pub line_number: usize,
    pub content: CodeownersLine,
    pub pattern_start: usize,
    pub pattern_end: usize,
    pub owners_start: usize,
}

/// The mathematical content of a parsed line.
pub enum LineContentModel {
    Rule { pattern: Seq<char>, owners: Seq<Seq<char>> },
    Comment,
}

/// The mathematical model of a parsed line.
pub struct LineModel {
    pub line_number: int,
    pub content: LineContentModel,
    pub pattern_start: int,
    pub pattern_end: int,
    pub owners_start: int,
}

impl View for CodeownersLine {
    type V = LineContentModel;

    open spec fn view(&self) -> LineContentModel {
        match self {
            CodeownersLine::Rule { pattern, owners } => LineContentModel::Rule {
                pattern: pattern@,
                owners: str_views(owners@),
            },
            CodeownersLine::Comment => LineContentModel::Comment,
        }
    }
}

impl View for ParsedLine {
    type V = LineModel;

    open spec fn view(&self) -> LineModel {
        LineModel {
            line_number: self.line_number as int,
            content: self.content@,
            pattern_start: self.pattern_start as int,
            pattern_end: self.pattern_end as int,
            owners_start: self.owners_start as int,
        }
    }
}

/// The models of a sequence of parsed lines.
pub open spec fn line_models(s: Seq<ParsedLine>) -> Seq<LineModel> {
    Seq::new(s.len(), |i: int| s[i]@)
}

/// The first position at or after `i` holding a non-whitespace
/// character, or the line length.
pub open spec fn skip_spaces(line: Seq<char>, i: int) -> int
    decreases line.len() - i,
{
    if i < 0 || i >= line.len() {
        line.len() as int
    } else if is_space(line[i]) {
        skip_spaces(line, i + 1)
    } else {
        i
    }
}

/// The first position at or after `i` holding a whitespace character,
/// or the line length: the end of the token starting at `i`.
pub open spec fn token_end(line: Seq<char>, i: int) -> int
    decreases line.len() - i,
{
    if i < 0 || i >= line.len() {
        line.len() as int
    } else if !is_space(line[i]) {
        token_end(line, i + 1)
    } else {
        i
    }
}

pub proof fn lemma_token_end_bounds(line: Seq<char>, i: int)
    requires
        0 <= i <= line.len(),
    ensures
        i <= token_end(line, i) <= line.len(),
    decreases line.len() - i,
{
    if i < line.len() && !is_space(line[i]) {
        lemma_token_end_bounds(line, i + 1);
    }
}

/// The whitespace-delimited tokens of `line`, starting at position `i`.
pub open spec fn tokens_from(line: Seq<char>, i: int) -> Seq<Seq<char>>
    decreases line.len() - i,
    via tokens_from_dec
{
    if i < 0 || i >= line.len() {
        Seq::empty()
    } else if is_space(line[i]) {
        tokens_from(line, i + 1)
    } else {
        seq![line.subrange(i, token_end(line, i))] + tokens_from(line, token_end(line, i))
    }
}

#[via_fn]
proof fn tokens_from_dec(line: Seq<char>, i: int) {
    if 0 <= i < line.len() && !is_space(line[i]) {
        lemma_token_end_bounds(line, i + 1);
        assert(token_end(line, i) == token_end(line, i + 1));
    }
}

/// What one line at line number `lineno` parses to: `None` for a blank
/// or comment line, otherwise the rule it holds.
pub open spec fn parse_line_spec(line: Seq<char>, lineno: int) -> Option<LineModel> {
    let ps = skip_spaces(line, 0);
    if ps >= line.len() {
        None
    } else if line[ps] == '#' {
        None
    } else {
        let pe = token_end(line, ps);
        Some(
            LineModel {
                line_number: lineno,
                content: LineContentModel::Rule {
                    pattern: line.subrange(ps, pe),
                    owners: tokens_from(line, pe),
                },
                pattern_start: ps,
                pattern_end: pe,
                owners_start: skip_spaces(line, pe),
            },
        )
    }
}

/// What a whole sequence of lines parses to, line numbers being the
/// zero-based positions in the sequence.
pub open spec fn parse_all(lines: Seq<Seq<char>>) -> Seq<LineModel>
    decreases lines.len(),
{
    if lines.len() == 0 {
        Seq::empty()
    } else {
        parse_all(lines.drop_last()) + match parse_line_spec(lines.last(), lines.len() - 1) {
            Some(m) => seq![m],
            None => Seq::empty(),
        }
    }
}

/// What a whole rule file parses to.
pub open spec fn parse_spec(text: Seq<char>) -> Seq<LineModel> {
    parse_all(split_on(text, '\n'))
}

/// The model of an optional parsed line.
pub open spec fn opt_model(r: Option<ParsedLine>) -> Option<LineModel> {
    match r {
        Some(p) => Some(p@),
        None => None,
    }
}

fn skip_spaces_exec(line: &Vec<char>, i: usize) -> (r: usize)
    requires
        i <= line@.len(),
    ensures
        r == skip_spaces(line@, i as int),
        i <= r <= line@.len(),
{
    let mut j: usize = i;
    while j < line.len() && char_is_space(line[j])
        invariant
            i <= j <= line@.len(),
            skip_spaces(line@, i as int) == skip_spaces(line@, j as int),
        decreases line@.len() - j,
    {
        j = j + 1;
    }
    j
}

fn token_end_exec(line: &Vec<char>, i: usize) -> (r: usize)
    requires
        i <= line@.len(),
    ensures
        r == token_end(line@, i as int),
        i <= r <= line@.len(),
{
    let mut j: usize = i;
    while j < line.len() && !char_is_space(line[j])
        invariant
            i <= j <= line@.len(),
            token_end(line@, i as int) == token_end(line@, j as int),
        decreases line@.len() - j,
    {
        j = j + 1;
    }
    j
}

fn collect_tokens(line: &Vec<char>, from: usize) -> (r: Vec<String>)
    requires
        from <= line@.len(),
    ensures
        str_views(r@) == tokens_from(line@, from as int),
{
    let mut out: Vec<String> = Vec::new();
    let mut i: usize = from;
    proof {
        assert(str_views(out@) + tokens_from(line@, from as int) =~= tokens_from(
            line@,
            from as int,
        ));
    }
    while i < line.len()
        invariant
            from <= i <= line@.len(),
            tokens_from(line@, from as int) == str_views(out@) + tokens_from(line@, i as int),
        decreases line@.len() - i,
    {
        if char_is_space(line[i]) {
            i = i + 1;
        } else {
            let k = token_end_exec(line, i);
            proof {
                lemma_token_end_bounds(line@, i + 1 as int);
                assert(k > i);
            }
            let tok = subvec(line, i, k);
            let ghost old_out = out@;
            out.push(chars_to_string(&tok));
            proof {
                assert(str_views(out@) =~= str_views(old_out) + seq![line@.subrange(
                    i as int,
                    k as int,
                )]);
                assert(tokens_from(line@, from as int) =~= str_views(out@) + tokens_from(
                    line@,
                    k as int,
                ));
            }
            i = k;
        }
    }
    proof {
        assert(tokens_from(line@, i as int) =~= Seq::<Seq<char>>::empty());
        assert(str_views(out@) =~= tokens_from(line@, from as int));
    }
    out
}

fn parse_line(line: &Vec<char>, lineno: usize) -> (r: Option<ParsedLine>)
    ensures
        opt_model(r) == parse_line_spec(line@, lineno as int),
{
    let ps = skip_spaces_exec(line, 0);
    if ps >= line.len() {
        return None;
    }
    if line[ps] == '#' {
        return None;
    }
    let pe = token_end_exec(line, ps);
    let os = skip_spaces_exec(line, pe);
    let tok = subvec(line, ps, pe);
    let pattern = chars_to_string(&tok);
    let owners = collect_tokens(line, pe);
    Some(
        ParsedLine {
            line_number: lineno,
            content: CodeownersLine::Rule { pattern, owners },
            pattern_start: ps,
            pattern_end: pe,
            owners_start: os,
        },
    )
}

/// Parses a whole rule file, keeping zero-based line numbers and the
/// character offsets of the pattern and first owner token of each rule.
/// Never fails: a line either becomes a rule or is skipped.
pub fn parse_codeowners_file_with_positions(text: &str) -> (r: Vec<ParsedLine>)
    ensures
        line_models(r@) == parse_spec(text@),
{
    let tc = to_chars(text);
    let lines = split_chars(&tc, '\n');
    let mut out: Vec<ParsedLine> = Vec::new();
    let n: usize = lines.len();
    let mut i: usize = 0;
    proof {
        assert(seq_views(lines@).take(0) =~= Seq::<Seq<char>>::empty());
        assert(line_models(out@) =~= parse_all(seq_views(lines@).take(0)));
    }
    while i < n
        invariant
            i <= n,
            n == lines@.len(),
            seq_views(lines@) == split_on(text@, '\n'),
            line_models(out@) == parse_all(seq_views(lines@).take(i as int)),
        decreases n - i,
    {
        let ghost segs = seq_views(lines@);
        proof {
            assert(segs.take(i + 1 as int).drop_last() =~= segs.take(i as int));
            assert(segs.take(i + 1 as int).last() == lines@[i as int]@);
        }
        match parse_line(&lines[i], i) {
            Some(pl) => {
                let ghost old_out = out@;
                out.push(pl);
                proof {
                    assert(line_models(out@) =~= line_models(old_out) + seq![pl@]);
                    assert(line_models(out@) =~= parse_all(segs.take(i + 1 as int)));
                }
            },
            None => {
                proof {
                    assert(line_models(out@) =~= parse_all(segs.take(i + 1 as int)));
                }
            },
        }
        i = i + 1;
    }
    proof {
        assert(seq_views(lines@).take(n as int) =~= seq_views(lines@));
    }
    out
}

} // verus!
