//! Pattern compilation and matching.
//!
//! A raw rule pattern is classified into one of five shapes; the shape
//! decides how a path is matched.  A leading `/` only anchors a pattern
//! at the matching root, which is where matching starts anyway, so any
//! leading slashes are stripped before classification.

use vstd::prelude::*;
use vstd::string::StringExecFns;

use crate::glob::glob_match;
use crate::glob::glob_match_chars;
use crate::glob::seg_match;
use crate::text::chars_eq;
use crate::text::ends_with;
use crate::text::ends_with_chars;
use crate::text::chars_to_string;
use crate::text::contains_char;
use crate::text::split_on;
use crate::text::subvec;
use crate::text::to_chars;
use crate::text::vec_contains_char;

verus! {

/// `s` without its leading slashes.
pub open spec fn strip_leading_slashes(s: Seq<char>) -> Seq<char>
    decreases s.len(),
{
    if s.len() > 0 && s[0] == '/' {
        strip_leading_slashes(s.skip(1))
    } else {
        s
    }
}

/// `s` with every trailing repetition of `suf` removed.
pub open spec fn strip_suffix_all(s: Seq<char>, suf: Seq<char>) -> Seq<char>
    decreases s.len(),
{
    if suf.len() > 0 && ends_with(s, suf) {
        strip_suffix_all(s.take(s.len() - suf.len()), suf)
    } else {
        s
    }
}

/// True when `path` equals `d` or extends it across a `/` segment
/// boundary, so that `d` names the path itself or an ancestor
/// directory of it.
pub open spec fn boundary_match(d: Seq<char>, path: Seq<char>) -> bool {
    path == d || (path.len() > d.len() && path.take(d.len() as int) == d && path[d.len() as int]
        == '/')
}

/// True when `path` lies strictly below the directory `d`: it extends
/// `d` and the first extra character is the `/` separator.
pub open spec fn starts_with_dir_spec(path: Seq<char>, d: Seq<char>) -> bool {
    path.len() > d.len() && path.take(d.len() as int) == d && path[d.len() as int] == '/'
}

/// The compiled shape of a pattern, over the pattern's characters.
pub enum PatternShape {
    /// The whole-tree patterns `*` and `**`.
    MatchAll,
    /// A glob without `/`, rewritten to the any-depth form `**/<glob>`.
    SingleSegmentGlob(Seq<char>),
    /// A glob with `/`, matched verbatim against the whole path.
    MultiSegmentGlob(Seq<char>),
    /// A pattern with a trailing `/`, kept without its trailing slashes.
    Directory(Seq<char>),
    /// Anything else: an exact path, which also acts as a directory
    /// prefix.
    Exact(Seq<char>),
}

/// Classifies a raw pattern.  Total: every string falls into exactly
/// one shape, `Exact` being the default.
pub open spec fn compile_spec(raw: Seq<char>) -> PatternShape {
    let p = strip_leading_slashes(raw);
    if p == seq!['*'] || p == seq!['*', '*'] {
        PatternShape::MatchAll
    } else if contains_char(p, '*') && !contains_char(p, '/') {
        PatternShape::SingleSegmentGlob(seq!['*', '*', '/'] + p)
    } else if contains_char(p, '*') {
        PatternShape::MultiSegmentGlob(p)
    } else if p.len() > 0 && p.last() == '/' {
        PatternShape::Directory(strip_suffix_all(p, seq!['/']))
    } else {
        PatternShape::Exact(p)
    }
}

/// What it means for a compiled shape to match a path.
pub open spec fn shape_matches(shape: PatternShape, path: Seq<char>) -> bool {
    match shape {
        PatternShape::MatchAll => true,
        PatternShape::SingleSegmentGlob(g) => glob_match(g, path),
        PatternShape::MultiSegmentGlob(g) => glob_match(g, path),
        PatternShape::Directory(d) => boundary_match(d, path),
        PatternShape::Exact(e) => boundary_match(e, path),
    }
}

/// What it means for a raw pattern to match a path.
pub open spec fn pat_matches(raw: Seq<char>, path: Seq<char>) -> bool {
    shape_matches(compile_spec(raw), path)
}

/// Pre-processed pattern for matching.
pub enum CompiledPattern {
    /// Matches everything (`*` or `**`).
    MatchAll,
    /// Single-segment glob such as `*.rs`, stored in its any-depth form
    /// `**/*.rs`.
    SingleSegmentGlob(String),
    /// Multi-segment glob such as `src/**/*.rs`.
    MultiSegmentGlob(String),
    /// Directory pattern such as `src/`, stored without the trailing
    /// slashes.
    Directory(String),
    /// Exact path, which also matches as a directory prefix.
    Exact(String),
}

impl View for CompiledPattern {
    type V = PatternShape;

    open spec fn view(&self) -> PatternShape {
        match self {
            CompiledPattern::MatchAll => PatternShape::MatchAll,
            CompiledPattern::SingleSegmentGlob(g) => PatternShape::SingleSegmentGlob(g@),
            CompiledPattern::MultiSegmentGlob(g) => PatternShape::MultiSegmentGlob(g@),
            CompiledPattern::Directory(d) => PatternShape::Directory(d@),
            CompiledPattern::Exact(e) => PatternShape::Exact(e@),
        }
    }
}

/// Counts the leading slashes of `v`, so that dropping them yields
/// `strip_leading_slashes(v@)`.
fn count_leading_slashes(v: &Vec<char>) -> (k: usize)
    ensures
        k <= v@.len(),
        strip_leading_slashes(v@) == v@.skip(k as int),
{
    let n: usize = v.len();
    let mut i: usize = 0;
    proof {
        assert(v@.skip(0) =~= v@);
    }
    while i < n && v[i] == '/'
        invariant
            i <= n,
            n == v@.len(),
            strip_leading_slashes(v@) == strip_leading_slashes(v@.skip(i as int)),
        decreases n - i,
    {
        proof {
            assert(v@.skip(i as int)[0] == v@[i as int]);
            assert(v@.skip(i as int).skip(1) =~= v@.skip(i + 1 as int));
        }
        i = i + 1;
    }
    proof {
        if i < n {
            assert(v@.skip(i as int)[0] == v@[i as int]);
        }
        assert(strip_leading_slashes(v@.skip(i as int)) == v@.skip(i as int));
    }
    i
}

/// Removes every trailing repetition of `suf` from `v`.
fn strip_suffix_all_chars(v: &Vec<char>, suf: &Vec<char>) -> (r: Vec<char>)
    requires
        suf@.len() > 0,
    ensures
        r@ == strip_suffix_all(v@, suf@),
{
    let mut e: usize = v.len();
    proof {
        assert(v@.take(e as int) =~= v@);
    }
    loop
        invariant
            e <= v@.len(),
            suf@.len() > 0,
            strip_suffix_all(v@, suf@) == strip_suffix_all(v@.take(e as int), suf@),
        ensures
            e <= v@.len(),
            strip_suffix_all(v@, suf@) == v@.take(e as int),
        decreases e,
    {
        let cur = subvec(v, 0, e);
        if ends_with_chars(&cur, suf) {
            proof {
                assert(v@.take(e as int).take(e - suf@.len()) =~= v@.take(e - suf@.len()));
            }
            e = e - suf.len();
        } else {
            proof {
                assert(strip_suffix_all(v@.take(e as int), suf@) == v@.take(e as int));
            }
            break ;
        }
    }
    subvec(v, 0, e)
}

impl CompiledPattern {
    /// Classifies `pattern`, after stripping any leading slashes.
    pub fn new(pattern: &str) -> (r: Self)
        ensures
            r@ == compile_spec(pattern@),
    {
        let pc = to_chars(pattern);
        let k = count_leading_slashes(&pc);
        let p = subvec(&pc, k, pc.len());
        proof {
            assert(pc@.skip(k as int) =~= pc@.subrange(k as int, pc@.len() as int));
        }
        let star1: bool = p.len() == 1 && p[0] == '*';
        let star2: bool = p.len() == 2 && p[0] == '*' && p[1] == '*';
        proof {
            assert(seq!['*'].len() == 1 && seq!['*'][0] == '*');
            assert(seq!['*', '*'].len() == 2 && seq!['*', '*'][0] == '*' && seq!['*', '*'][1]
                == '*');
            if star1 {
                assert(p@ =~= seq!['*']);
            }
            if star2 {
                assert(p@ =~= seq!['*', '*']);
            }
        }
        if star1 || star2 {
            return CompiledPattern::MatchAll;
        }
        if vec_contains_char(&p, '*') {
            if !vec_contains_char(&p, '/') {
                let mut g = String::from_str("**/");
                let rest = chars_to_string(&p);
                g.append(rest.as_str());
                proof {
                    reveal_strlit("**/");
                    assert("**/"@ =~= seq!['*', '*', '/']);
                }
                return CompiledPattern::SingleSegmentGlob(g);
            }
            return CompiledPattern::MultiSegmentGlob(chars_to_string(&p));
        }
        if p.len() > 0 && p[p.len() - 1] == '/' {
            let mut slash: Vec<char> = Vec::new();
            slash.push('/');
            proof {
                assert(slash@ =~= seq!['/']);
                assert(p@.last() == p@[p@.len() - 1]);
            }
            let d = strip_suffix_all_chars(&p, &slash);
            return CompiledPattern::Directory(chars_to_string(&d));
        }
        proof {
            if p@.len() > 0 && p@.last() == '/' {
                assert(p@[p@.len() - 1] == '/');
            }
        }
        CompiledPattern::Exact(chars_to_string(&p))
    }

    /// Evaluates this compiled pattern against `path`.
    pub fn matches(&self, path: &str) -> (r: bool)
        ensures
            r == shape_matches(self@, path@),
    {
        match self {
            CompiledPattern::MatchAll => true,
            CompiledPattern::SingleSegmentGlob(g) => {
                let gc = to_chars(g.as_str());
                let tc = to_chars(path);
                glob_match_chars(&gc, &tc)
            },
            CompiledPattern::MultiSegmentGlob(g) => {
                let gc = to_chars(g.as_str());
                let tc = to_chars(path);
                glob_match_chars(&gc, &tc)
            },
            CompiledPattern::Directory(d) => {
                let dc = to_chars(d.as_str());
                let tc = to_chars(path);
                boundary_match_chars(&dc, &tc)
            },
            CompiledPattern::Exact(e) => {
                let ec = to_chars(e.as_str());
                let tc = to_chars(path);
                boundary_match_chars(&ec, &tc)
            },
        }
    }
}

/// True when `path` equals `d` or lies below it across a `/` boundary.
fn boundary_match_chars(d: &Vec<char>, path: &Vec<char>) -> (r: bool)
    ensures
        r == boundary_match(d@, path@),
{
    if chars_eq(path, d) {
        return true;
    }
    if path.len() > d.len() {
        let pre = subvec(path, 0, d.len());
        proof {
            assert(path@.subrange(0, d@.len() as int) =~= path@.take(d@.len() as int));
        }
        if chars_eq(&pre, d) && path[d.len()] == '/' {
            return true;
        }
    }
    false
}

/// Compiles `pattern` and evaluates it against `path` in one step.
pub fn pattern_matches(pattern: &str, path: &str) -> (r: bool)
    ensures
        r == pat_matches(pattern@, path@),
{
    let cp = CompiledPattern::new(pattern);
    cp.matches(path)
}

/// The directory form of a pattern: trailing repetitions of `/`, then
/// of `/**`, then of `/*` removed.
pub open spec fn dir_form(p: Seq<char>) -> Seq<char> {
    strip_suffix_all(
        strip_suffix_all(strip_suffix_all(p, seq!['/']), seq!['/', '*', '*']),
        seq!['/', '*'],
    )
}

/// True when a pattern denotes a directory: it ends with `/`, `/**` or
/// `/*`.
pub open spec fn denotes_dir(p: Seq<char>) -> bool {
    ends_with(p, seq!['/']) || ends_with(p, seq!['/', '*', '*']) || ends_with(p, seq!['/', '*'])
}

/// The subsumption relation on raw patterns: true when every path
/// matched by `a0` is also matched by `b0`, as far as the shapes below
/// can show it.  Both patterns lose their leading slashes first.
/// Identical patterns subsume; the universal patterns subsume
/// everything; an extension-style pattern (leading `*`) is subsumed by
/// another whose suffix it ends with; a directory pattern is subsumed
/// by a directory pattern naming the same directory or an ancestor,
/// and a non-directory pattern by a directory pattern naming it or an
/// ancestor.  Every other combination is conservatively false.
pub open spec fn subsumes_spec(a0: Seq<char>, b0: Seq<char>) -> bool {
    let a = strip_leading_slashes(a0);
    let b = strip_leading_slashes(b0);
    if a == b {
        true
    } else if b == seq!['*'] || b == seq!['*', '*'] {
        true
    } else if a.len() > 0 && a[0] == '*' {
        b.len() > 0 && b[0] == '*' && ends_with(a.skip(1), b.skip(1))
    } else {
        let ad = dir_form(a);
        let bd = dir_form(b);
        if denotes_dir(a) && denotes_dir(b) {
            ad == bd || starts_with_dir_spec(ad, bd)
        } else if denotes_dir(b) {
            a == bd || starts_with_dir_spec(a, bd)
        } else {
            false
        }
    }
}

/// True when `path` lies strictly below the directory `d`.
fn starts_with_dir(path: &Vec<char>, d: &Vec<char>) -> (r: bool)
    ensures
        r == starts_with_dir_spec(path@, d@),
{
    if path.len() > d.len() {
        let pre = subvec(path, 0, d.len());
        proof {
            assert(path@.subrange(0, d@.len() as int) =~= path@.take(d@.len() as int));
        }
        if chars_eq(&pre, d) && path[d.len()] == '/' {
            return true;
        }
    }
    false
}

/// Decides whether pattern `a` is subsumed by pattern `b`: everything
/// `a` matches, `b` also matches.  When this holds and `b` appears
/// after `a` in a rule file, rule `a` is dead.
pub fn pattern_subsumes(a: &str, b: &str) -> (r: bool)
    ensures
        r == subsumes_spec(a@, b@),
{
    let ac = to_chars(a);
    let ka = count_leading_slashes(&ac);
    let av = subvec(&ac, ka, ac.len());
    let bc = to_chars(b);
    let kb = count_leading_slashes(&bc);
    let bv = subvec(&bc, kb, bc.len());
    proof {
        assert(ac@.skip(ka as int) =~= ac@.subrange(ka as int, ac@.len() as int));
        assert(bc@.skip(kb as int) =~= bc@.subrange(kb as int, bc@.len() as int));
    }
    if chars_eq(&av, &bv) {
        return true;
    }
    let bstar1: bool = bv.len() == 1 && bv[0] == '*';
    let bstar2: bool = bv.len() == 2 && bv[0] == '*' && bv[1] == '*';
    proof {
        assert(seq!['*'].len() == 1 && seq!['*'][0] == '*');
        assert(seq!['*', '*'].len() == 2 && seq!['*', '*'][0] == '*' && seq!['*', '*'][1] == '*');
        if bstar1 {
            assert(bv@ =~= seq!['*']);
        }
        if bstar2 {
            assert(bv@ =~= seq!['*', '*']);
        }
    }
    if bstar1 || bstar2 {
        return true;
    }
    if av.len() > 0 && av[0] == '*' {
        if bv.len() > 0 && bv[0] == '*' {
            let aext = subvec(&av, 1, av.len());
            let bext = subvec(&bv, 1, bv.len());
            proof {
                assert(av@.subrange(1, av@.len() as int) =~= av@.skip(1));
                assert(bv@.subrange(1, bv@.len() as int) =~= bv@.skip(1));
            }
            return ends_with_chars(&aext, &bext);
        }
        return false;
    }
    let mut suf_slash: Vec<char> = Vec::new();
    suf_slash.push('/');
    let mut suf_dstar: Vec<char> = Vec::new();
    suf_dstar.push('/');
    suf_dstar.push('*');
    suf_dstar.push('*');
    let mut suf_star: Vec<char> = Vec::new();
    suf_star.push('/');
    suf_star.push('*');
    proof {
        assert(suf_slash@ =~= seq!['/']);
        assert(suf_dstar@ =~= seq!['/', '*', '*']);
        assert(suf_star@ =~= seq!['/', '*']);
    }
    let b_is_dir: bool = ends_with_chars(&bv, &suf_slash) || ends_with_chars(&bv, &suf_dstar)
        || ends_with_chars(&bv, &suf_star);
    if !b_is_dir {
        return false;
    }
    let bd1 = strip_suffix_all_chars(&bv, &suf_slash);
    let bd2 = strip_suffix_all_chars(&bd1, &suf_dstar);
    let bd = strip_suffix_all_chars(&bd2, &suf_star);
    let a_is_dir: bool = ends_with_chars(&av, &suf_slash) || ends_with_chars(&av, &suf_dstar)
        || ends_with_chars(&av, &suf_star);
    if a_is_dir {
        let ad1 = strip_suffix_all_chars(&av, &suf_slash);
        let ad2 = strip_suffix_all_chars(&ad1, &suf_dstar);
        let ad = strip_suffix_all_chars(&ad2, &suf_star);
        if chars_eq(&ad, &bd) {
            true
        } else {
            starts_with_dir(&ad, &bd)
        }
    } else {
        if chars_eq(&av, &bd) {
            true
        } else {
            starts_with_dir(&av, &bd)
        }
    }
}

/// The universal patterns `*` and `**` match every path.
pub proof fn lemma_match_all_matches_everything(raw: Seq<char>, path: Seq<char>)
    requires
        compile_spec(raw) == PatternShape::MatchAll,
    ensures
        pat_matches(raw, path),
{
}

/// A single-segment glob looks only at the final path segment: its
/// compiled any-depth form matches a path exactly when the glob
/// matches the path's basename.
pub proof fn lemma_single_segment_glob_basename(raw: Seq<char>, path: Seq<char>)
    requires
        ({
            let p = strip_leading_slashes(raw);
            &&& contains_char(p, '*')
            &&& !contains_char(p, '/')
            &&& p != seq!['*']
            &&& p != seq!['*', '*']
        }),
    ensures
        pat_matches(raw, path) == seg_match(strip_leading_slashes(raw), split_on(path, '/').last()),
{
    let p = strip_leading_slashes(raw);
    assert(compile_spec(raw) == PatternShape::SingleSegmentGlob(seq!['*', '*', '/'] + p));
    crate::glob::lemma_split_dstar_slash(p);
    crate::text::lemma_split_on_len(path, '/');
    crate::glob::lemma_dstar_prefix_matches_last(p, split_on(path, '/'));
}

/// Matching a single-segment glob depends only on the basename: two
/// paths with the same final segment agree on the match.
pub proof fn lemma_single_segment_glob_depends_on_basename(
    raw: Seq<char>,
    p1: Seq<char>,
    p2: Seq<char>,
)
    requires
        ({
            let p = strip_leading_slashes(raw);
            &&& contains_char(p, '*')
            &&& !contains_char(p, '/')
            &&& p != seq!['*']
            &&& p != seq!['*', '*']
        }),
        split_on(p1, '/').last() == split_on(p2, '/').last(),
    ensures
        pat_matches(raw, p1) == pat_matches(raw, p2),
{
    lemma_single_segment_glob_basename(raw, p1);
    lemma_single_segment_glob_basename(raw, p2);
}

/// Segment-boundary property: a path that extends a directory or exact
/// name as a bare string prefix, without a `/` right after the name,
/// is not matched by it.
pub proof fn lemma_boundary_requires_separator(d: Seq<char>, path: Seq<char>)
    requires
        path.len() > d.len(),
        path[d.len() as int] != '/',
    ensures
        !boundary_match(d, path),
{
}

/// Segment-boundary property for compiled directory patterns: a path
/// that only extends the directory name without a `/` at the boundary
/// is not matched.
pub proof fn lemma_directory_segment_boundary(raw: Seq<char>, path: Seq<char>)
    requires
        compile_spec(raw) is Directory,
        path.len() > (compile_spec(raw)->Directory_0).len(),
        path[(compile_spec(raw)->Directory_0).len() as int] != '/',
    ensures
        !pat_matches(raw, path),
{
}

/// Compilation is deterministic: two compilations of one raw pattern
/// behave identically on every path.
pub proof fn lemma_compile_deterministic(raw: Seq<char>, c1: PatternShape, c2: PatternShape)
    requires
        c1 == compile_spec(raw),
        c2 == compile_spec(raw),
    ensures
        forall|path: Seq<char>| shape_matches(c1, path) == shape_matches(c2, path),
{
}

/// Subsumption is reflexive: every pattern subsumes itself.
pub proof fn lemma_subsumes_reflexive(a: Seq<char>)
    ensures
        subsumes_spec(a, a),
{
}

/// The universal patterns `*` and `**` subsume every pattern.
pub proof fn lemma_universal_subsumes(a: Seq<char>, b: Seq<char>)
    requires
        strip_leading_slashes(b) == seq!['*'] || strip_leading_slashes(b) == seq!['*', '*'],
    ensures
        subsumes_spec(a, b),
{
}

} // verus!
