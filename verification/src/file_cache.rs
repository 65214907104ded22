//! A read-only index of the files under a scan root, and ownership
//! coverage over it.
//!
//! The index is built once from the relative paths that a directory
//! walk produced and is immutable afterwards; construction removes
//! duplicates, keeping the first occurrence of each path in order.

use vstd::prelude::*;

use crate::ownership::any_rule_matches;
use crate::ownership::rules_match_path;
use crate::parser::ParsedLine;
use crate::parser::line_models;
use crate::pattern::CompiledPattern;
use crate::pattern::compile_spec;
use crate::pattern::pat_matches;
use crate::text::str_views;

verus! {

/// `s` with duplicates removed, keeping the first occurrence of each
/// element in order.
pub open spec fn dedup_spec(s: Seq<Seq<char>>) -> Seq<Seq<char>>
    decreases s.len(),
{
    if s.len() == 0 {
        Seq::empty()
    } else {
        let rest = dedup_spec(s.drop_last());
        if s.drop_last().contains(s.last()) {
            rest
        } else {
            rest.push(s.last())
        }
    }
}

/// Removing duplicates keeps exactly the members of the sequence.
pub proof fn lemma_dedup_membership(s: Seq<Seq<char>>, x: Seq<char>)
    ensures
        dedup_spec(s).contains(x) == s.contains(x),
    decreases s.len(),
{
    if s.len() == 0 {
    } else {
        let d = s.drop_last();
        let rest = dedup_spec(d);
        lemma_dedup_membership(d, x);
        if d.contains(x) {
            let k = choose|k: int| 0 <= k < d.len() && d[k] == x;
            assert(s[k] == x);
            assert(s.contains(x));
            let m = choose|m: int| 0 <= m < rest.len() && rest[m] == x;
            if !d.contains(s.last()) {
                assert(rest.push(s.last())[m] == x);
                assert(dedup_spec(s).contains(x));
            }
        } else if s.last() == x {
            assert(s[s.len() - 1] == x);
            assert(s.contains(x));
            assert(rest.push(x)[rest.len() as int] == x);
            assert(dedup_spec(s).contains(x));
        } else {
            assert(!s.contains(x)) by {
                if s.contains(x) {
                    let k = choose|k: int| 0 <= k < s.len() && s[k] == x;
                    if k < s.len() - 1 {
                        assert(d[k] == x);
                        assert(d.contains(x));
                    }
                }
            }
            assert(!dedup_spec(s).contains(x)) by {
                if dedup_spec(s).contains(x) {
                    let m = choose|m: int|
                        0 <= m < dedup_spec(s).len() && dedup_spec(s)[m] == x;
                    if d.contains(s.last()) {
                        assert(rest[m] == x);
                        assert(rest.contains(x));
                    } else {
                        if m < rest.len() {
                            assert(rest[m] == x);
                            assert(rest.contains(x));
                        } else {
                            assert(rest.push(s.last())[m] == s.last());
                        }
                    }
                }
            }
        }
    }
}

/// The files among `files` that `raw` matches, in index order.
pub open spec fn matching_files(files: Seq<Seq<char>>, raw: Seq<char>) -> Seq<Seq<char>>
    decreases files.len(),
{
    if files.len() == 0 {
        Seq::empty()
    } else {
        let rest = matching_files(files.drop_last(), raw);
        if pat_matches(raw, files.last()) {
            rest.push(files.last())
        } else {
            rest
        }
    }
}

/// The files among `files` that no rule in `rules` matches, in index
/// order.
pub open spec fn unowned_spec(
    files: Seq<Seq<char>>,
    rules: Seq<crate::parser::LineModel>,
) -> Seq<Seq<char>>
    decreases files.len(),
{
    if files.len() == 0 {
        Seq::empty()
    } else {
        let rest = unowned_spec(files.drop_last(), rules);
        if !any_rule_matches(rules, files.last()) {
            rest.push(files.last())
        } else {
            rest
        }
    }
}

/// There are never more unowned files than files.
pub proof fn lemma_unowned_le_total(files: Seq<Seq<char>>, rules: Seq<crate::parser::LineModel>)
    ensures
        unowned_spec(files, rules).len() <= files.len(),
    decreases files.len(),
{
    if files.len() > 0 {
        lemma_unowned_le_total(files.drop_last(), rules);
    }
}

/// A one-time, read-only index of the files under a scan root, as
/// relative `/`-separated paths with duplicates removed.
pub struct FileCache {
    files: Vec<String>,
}

impl View for FileCache {
    type V = Seq<Seq<char>>;

    closed spec fn view(&self) -> Seq<Seq<char>> {
        str_views(self.files@)
    }
}

fn contains_string(v: &Vec<String>, s: &String) -> (r: bool)
    ensures
        r == str_views(v@).contains(s@),
{
    let n: usize = v.len();
    let mut i: usize = 0;
    while i < n
        invariant
            i <= n,
            n == v@.len(),
            forall|j: int| 0 <= j < i ==> str_views(v@)[j] != s@,
        decreases n - i,
    {
        if v[i].eq(s) {
            proof {
                assert(str_views(v@)[i as int] == s@);
            }
            return true;
        }
        i = i + 1;
    }
    false
}

/// Removes duplicate paths, keeping the first occurrence of each in
/// order.
pub fn dedup_strings(files: Vec<String>) -> (r: Vec<String>)
    ensures
        str_views(r@) == dedup_spec(str_views(files@)),
{
    let ghost fv = str_views(files@);
    let mut out: Vec<String> = Vec::new();
    let n: usize = files.len();
    let mut i: usize = 0;
    proof {
        assert(fv.take(0) =~= Seq::<Seq<char>>::empty());
        assert(str_views(out@) =~= dedup_spec(fv.take(0)));
    }
    while i < n
        invariant
            i <= n,
            n == files@.len(),
            fv == str_views(files@),
            str_views(out@) == dedup_spec(fv.take(i as int)),
        decreases n - i,
    {
        proof {
            assert(fv.take(i + 1 as int).drop_last() =~= fv.take(i as int));
            assert(fv.take(i + 1 as int).last() == fv[i as int]);
            assert(fv[i as int] == files@[i as int]@);
            lemma_dedup_membership(fv.take(i as int), fv[i as int]);
        }
        let ghost old_out = out@;
        let present = contains_string(&out, &files[i]);
        if !present {
            out.push(files[i].clone());
            proof {
                assert(str_views(out@) =~= str_views(old_out).push(files@[i as int]@));
            }
        }
        i = i + 1;
    }
    proof {
        assert(fv.take(n as int) =~= fv);
    }
    out
}

impl FileCache {
    /// Builds the index from the relative paths that a directory walk
    /// produced, dropping duplicates and keeping first occurrences in
    /// order.
    pub fn from_files(files: Vec<String>) -> (r: Self)
        ensures
            r@ == dedup_spec(str_views(files@)),
    {
        FileCache { files: dedup_strings(files) }
    }

    /// The number of files in the index.
    pub fn len(&self) -> (r: usize)
        ensures
            r == self@.len(),
    {
        self.files.len()
    }

    /// Counts the indexed files that `pattern` matches.
    pub fn count_matches(&self, pattern: &str) -> (r: usize)
        ensures
            r == matching_files(self@, pattern@).len(),
    {
        let m = self.get_matches(pattern);
        m.len()
    }

    /// The indexed files that `pattern` matches, in index order.
    pub fn get_matches(&self, pattern: &str) -> (r: Vec<String>)
        ensures
            str_views(r@) == matching_files(self@, pattern@),
    {
        let cp = CompiledPattern::new(pattern);
        let mut out: Vec<String> = Vec::new();
        let n: usize = self.files.len();
        let mut i: usize = 0;
        proof {
            assert(self@.take(0) =~= Seq::<Seq<char>>::empty());
            assert(str_views(out@) =~= matching_files(self@.take(0), pattern@));
        }
        while i < n
            invariant
                i <= n,
                n == self.files@.len(),
                cp@ == compile_spec(pattern@),
                str_views(out@) == matching_files(self@.take(i as int), pattern@),
            decreases n - i,
        {
            proof {
                assert(self@.take(i + 1 as int).drop_last() =~= self@.take(i as int));
                assert(self@.take(i + 1 as int).last() == self@[i as int]);
                assert(self@[i as int] == self.files@[i as int]@);
            }
            let ghost old_out = out@;
            if cp.matches(self.files[i].as_str()) {
                out.push(self.files[i].clone());
                proof {
                    assert(str_views(out@) =~= str_views(old_out).push(self.files@[i as int]@));
                }
            }
            i = i + 1;
        }
        proof {
            assert(self@.take(n as int) =~= self@);
        }
        out
    }

    /// The indexed files that no rule in `rules` matches, in index
    /// order.  A rule with an empty owners list still counts as
    /// owning: membership, not resolution, decides.
    pub fn get_unowned_files(&self, rules: &Vec<ParsedLine>) -> (r: Vec<String>)
        ensures
            str_views(r@) == unowned_spec(self@, line_models(rules@)),
    {
        let ghost ms = line_models(rules@);
        let mut out: Vec<String> = Vec::new();
        let n: usize = self.files.len();
        let mut i: usize = 0;
        proof {
            assert(self@.take(0) =~= Seq::<Seq<char>>::empty());
            assert(str_views(out@) =~= unowned_spec(self@.take(0), ms));
        }
        while i < n
            invariant
                i <= n,
                n == self.files@.len(),
                ms == line_models(rules@),
                str_views(out@) == unowned_spec(self@.take(i as int), ms),
            decreases n - i,
        {
            proof {
                assert(self@.take(i + 1 as int).drop_last() =~= self@.take(i as int));
                assert(self@.take(i + 1 as int).last() == self@[i as int]);
                assert(self@[i as int] == self.files@[i as int]@);
            }
            let ghost old_out = out@;
            if !rules_match_path(rules, self.files[i].as_str()) {
                out.push(self.files[i].clone());
                proof {
                    assert(str_views(out@) =~= str_views(old_out).push(self.files@[i as int]@));
                }
            }
            i = i + 1;
        }
        proof {
            assert(self@.take(n as int) =~= self@);
        }
        out
    }

    /// Ownership coverage of this index under `rules`.
    pub fn coverage(&self, rules: &Vec<ParsedLine>) -> (r: CoverageStats)
        ensures
            r.total == self@.len(),
            r.unowned == unowned_spec(self@, line_models(rules@)).len(),
            r.owned + r.unowned == r.total,
    {
        let un = self.get_unowned_files(rules);
        proof {
            lemma_unowned_le_total(self@, line_models(rules@));
        }
        CoverageStats::new(self.files.len(), un.len())
    }
}

/// Owned and unowned counts over a file index: the coverage identity
/// `owned + unowned == total` holds by construction.
pub struct CoverageStats {
    pub total: usize,
    pub owned: usize,
    pub unowned: usize,
}

impl CoverageStats {
    /// Builds the statistics from a total and an unowned count.
    pub fn new(total: usize, unowned: usize) -> (r: Self)
        requires
            unowned <= total,
        ensures
            r.total == total,
            r.unowned == unowned,
            r.owned == total - unowned,
            r.owned + r.unowned == r.total,
    {
        CoverageStats { total, owned: total - unowned, unowned }
    }

    /// The coverage percentage in tenths of a percent, truncated
    /// towards zero, and 100.0% for an empty index.
    pub fn percent_tenths(&self) -> (r: u64)
        requires
            self.owned <= self.total,
        ensures
            self.total == 0 ==> r == 1000,
            self.total > 0 ==> r == 1000 * (self.owned as int) / (self.total as int),
    {
        if self.total == 0 {
            1000
        } else {
            let v: u128 = (self.owned as u128) * 1000 / (self.total as u128);
            proof {
                assert(1000 * (self.owned as int) / (self.total as int) <= 1000) by (nonlinear_arith)
                    requires
                        0 < self.total,
                        self.owned <= self.total,
                ;
                assert((self.owned as u128) * 1000 == 1000 * self.owned);
            }
            v as u64
        }
    }
}

} // verus!
