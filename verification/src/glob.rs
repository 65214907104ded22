//! Glob evaluation over `/`-separated paths.
//!
//! A pattern and a path are both split into segments at `/`.  Within one
//! segment a literal character matches itself and `*` matches one or more
//! characters of that segment.  A pattern segment that is exactly `**`
//! matches zero or more whole path segments.

use vstd::prelude::*;

use crate::text::contains_char;
use crate::text::lemma_split_on_no_sep;
use crate::text::seq_views;
use crate::text::split_chars;
use crate::text::split_on;

verus! {

/// One pattern segment matched against one path segment: a literal
/// character matches itself and `*` matches one or more characters.
pub open spec fn seg_match(p: Seq<char>, s: Seq<char>) -> bool
    decreases p.len() + s.len(),
{
    if p.len() == 0 {
        s.len() == 0
    } else if p[0] == '*' {
        s.len() > 0 && (seg_match(p.skip(1), s.skip(1)) || seg_match(p, s.skip(1)))
    } else {
        s.len() > 0 && p[0] == s[0] && seg_match(p.skip(1), s.skip(1))
    }
}

/// A segment-wise match: a pattern segment that is exactly `**` spans
/// zero or more whole path segments, any other segment must match one
/// path segment in position.
pub open spec fn segs_match(ps: Seq<Seq<char>>, ss: Seq<Seq<char>>) -> bool
    decreases ps.len() + ss.len(),
{
    if ps.len() == 0 {
        ss.len() == 0
    } else if ps[0] == seq!['*', '*'] {
        segs_match(ps.skip(1), ss) || (ss.len() > 0 && segs_match(ps, ss.skip(1)))
    } else {
        ss.len() > 0 && seg_match(ps[0], ss[0]) && segs_match(ps.skip(1), ss.skip(1))
    }
}

/// Glob evaluation of a whole pattern against a whole path.
pub open spec fn glob_match(pat: Seq<char>, path: Seq<char>) -> bool {
    segs_match(split_on(pat, '/'), split_on(path, '/'))
}

fn seg_match_at(p: &Vec<char>, i: usize, s: &Vec<char>, j: usize) -> (r: bool)
    requires
        i <= p@.len(),
        j <= s@.len(),
    ensures
        r == seg_match(p@.skip(i as int), s@.skip(j as int)),
    decreases p@.len() - i + s@.len() - j,
{
    proof {
        if i < p@.len() {
            assert(p@.skip(i as int)[0] == p@[i as int]);
            assert(p@.skip(i as int).skip(1) =~= p@.skip(i + 1 as int));
        }
        if j < s@.len() {
            assert(s@.skip(j as int)[0] == s@[j as int]);
            assert(s@.skip(j as int).skip(1) =~= s@.skip(j + 1 as int));
        }
    }
    if i == p.len() {
        return j == s.len();
    }
    if p[i] == '*' {
        if j == s.len() {
            false
        } else {
            seg_match_at(p, i + 1, s, j + 1) || seg_match_at(p, i, s, j + 1)
        }
    } else {
        if j == s.len() {
            false
        } else if p[i] != s[j] {
            false
        } else {
            seg_match_at(p, i + 1, s, j + 1)
        }
    }
}

fn segs_match_at(ps: &Vec<Vec<char>>, i: usize, ss: &Vec<Vec<char>>, j: usize) -> (r: bool)
    requires
        i <= ps@.len(),
        j <= ss@.len(),
    ensures
        r == segs_match(seq_views(ps@).skip(i as int), seq_views(ss@).skip(j as int)),
    decreases ps@.len() - i + ss@.len() - j,
{
    proof {
        if i < ps@.len() {
            assert(seq_views(ps@).skip(i as int)[0] == ps@[i as int]@);
            assert(seq_views(ps@).skip(i as int).skip(1) =~= seq_views(ps@).skip(i + 1 as int));
        }
        if j < ss@.len() {
            assert(seq_views(ss@).skip(j as int)[0] == ss@[j as int]@);
            assert(seq_views(ss@).skip(j as int).skip(1) =~= seq_views(ss@).skip(j + 1 as int));
        }
    }
    if i == ps.len() {
        return j == ss.len();
    }
    let pseg: &Vec<char> = &ps[i];
    let is_dstar: bool = pseg.len() == 2 && pseg[0] == '*' && pseg[1] == '*';
    proof {
        if is_dstar {
            assert(pseg@ =~= seq!['*', '*']);
        } else {
            assert(pseg@ != seq!['*', '*']) by {
                if pseg@.len() == 2 {
                    assert(seq!['*', '*'][0] == '*' && seq!['*', '*'][1] == '*');
                }
            }
        }
    }
    if is_dstar {
        if segs_match_at(ps, i + 1, ss, j) {
            true
        } else if j < ss.len() {
            segs_match_at(ps, i, ss, j + 1)
        } else {
            false
        }
    } else {
        if j == ss.len() {
            false
        } else {
            proof {
                assert(pseg@.skip(0) =~= pseg@);
                assert(ss@[j as int]@.skip(0) =~= ss@[j as int]@);
            }
            seg_match_at(pseg, 0, &ss[j], 0) && segs_match_at(ps, i + 1, ss, j + 1)
        }
    }
}

/// Evaluates the glob pattern `pat` against `path`, both given as
/// character vectors.
pub fn glob_match_chars(pat: &Vec<char>, path: &Vec<char>) -> (r: bool)
    ensures
        r == glob_match(pat@, path@),
{
    let psegs = split_chars(pat, '/');
    let ssegs = split_chars(path, '/');
    proof {
        assert(seq_views(psegs@).skip(0) =~= seq_views(psegs@));
        assert(seq_views(ssegs@).skip(0) =~= seq_views(ssegs@));
    }
    segs_match_at(&psegs, 0, &ssegs, 0)
}

/// Prefixing a slash-free segment with `**/` splits into exactly the
/// two segments `**` and the segment itself.
pub proof fn lemma_split_dstar_slash(p: Seq<char>)
    requires
        !contains_char(p, '/'),
    ensures
        split_on(seq!['*', '*', '/'] + p, '/') == seq![seq!['*', '*'], p],
{
    let s0 = seq!['*', '*', '/'] + p;
    let s1 = seq!['*', '/'] + p;
    let s2 = seq!['/'] + p;
    assert(s0.skip(1) =~= s1);
    assert(s1.skip(1) =~= s2);
    assert(s2.skip(1) =~= p);
    lemma_split_on_no_sep(p, '/');
    assert(s2[0] == '/');
    assert(split_on(s2, '/') == seq![Seq::<char>::empty()] + seq![p]);
    assert(s1[0] == '*' && s1[0] != '/');
    assert((seq![Seq::<char>::empty()] + seq![p])[0] =~= Seq::<char>::empty());
    assert((seq![Seq::<char>::empty()] + seq![p]).skip(1) =~= seq![p]);
    assert(seq!['*'] + Seq::<char>::empty() =~= seq!['*']);
    assert(split_on(s1, '/') =~= seq![seq!['*']] + seq![p]);
    assert(s0[0] == '*' && s0[0] != '/');
    assert((seq![seq!['*']] + seq![p])[0] == seq!['*']);
    assert((seq![seq!['*']] + seq![p]).skip(1) =~= seq![p]);
    assert(seq!['*'] + seq!['*'] =~= seq!['*', '*']);
    assert(split_on(s0, '/') =~= seq![seq!['*', '*'], p]);
}

/// A pattern of the shape `**/g`, where `g` is a single segment other
/// than `**` itself, matches exactly when `g` matches the final segment
/// of the path.
pub proof fn lemma_dstar_prefix_matches_last(g: Seq<char>, ss: Seq<Seq<char>>)
    requires
        ss.len() >= 1,
        g != seq!['*', '*'],
    ensures
        segs_match(seq![seq!['*', '*'], g], ss) == seg_match(g, ss.last()),
    decreases ss.len(),
{
    let ps = seq![seq!['*', '*'], g];
    assert(ps[0] == seq!['*', '*']);
    assert(ps.skip(1) =~= seq![g]);
    assert(seq![g][0] == g);
    assert(seq![g].skip(1) =~= Seq::<Seq<char>>::empty());
    assert(segs_match(Seq::<Seq<char>>::empty(), ss.skip(1)) == (ss.skip(1).len() == 0));
    assert(segs_match(seq![g], ss) == (ss.len() > 0 && seg_match(g, ss[0]) && segs_match(
        seq![g].skip(1),
        ss.skip(1),
    )));
    if ss.len() == 1 {
        assert(segs_match(seq![g], ss) == seg_match(g, ss[0]));
        assert(ss.skip(1) =~= Seq::<Seq<char>>::empty());
        assert(!segs_match(seq![g], ss.skip(1)));
        assert(!segs_match(ps, ss.skip(1)));
        assert(segs_match(ps, ss) == seg_match(g, ss.last()));
    } else {
        lemma_dstar_prefix_matches_last(g, ss.skip(1));
        assert(ss.skip(1).last() == ss.last());
        assert(segs_match(seq![g], ss) == (ss.len() == 1 && seg_match(g, ss[0])));
        assert(segs_match(ps, ss) == (segs_match(seq![g], ss) || segs_match(ps, ss.skip(1))));
        assert(segs_match(ps, ss) == seg_match(g, ss.last()));
    }
}

} // verus!
