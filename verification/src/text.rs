//! Character-level utilities shared by the pattern, parser and matcher
//! modules: conversion between strings and character vectors, whitespace
//! classification, and splitting a character sequence at a separator.

use vstd::prelude::*;
use vstd::string::StrSliceExecFns;

verus! {

/// The whitespace characters recognised when tokenizing rule lines and
/// trimming file lists: space, tab, carriage return and line feed.
pub open spec fn is_space(c: char) -> bool {
    c == ' ' || c == '\t' || c == '\r' || c == '\n'
}

/// Executable form of `is_space`.
pub fn char_is_space(c: char) -> (r: bool)
    ensures
        r == is_space(c),
{
    c == ' ' || c == '\t' || c == '\r' || c == '\n'
}

/// True when `c` occurs somewhere in `s`.
pub open spec fn contains_char(s: Seq<char>, c: char) -> bool {
    exists|i: int| 0 <= i < s.len() && s[i] == c
}

/// Collects the characters of a string slice into a vector.
pub fn to_chars(s: &str) -> (v: Vec<char>)
    ensures
        v@ == s@,
{
    let n: usize = s.unicode_len();
    let mut v: Vec<char> = Vec::new();
    let mut i: usize = 0;
    while i < n
        invariant
            n == s@.len(),
            i <= n,
            v@ == s@.take(i as int),
        decreases n - i,
    {
        v.push(s.get_char(i));
        proof {
            assert(s@.take(i as int).push(s@[i as int]) =~= s@.take(i + 1 as int));
        }
        i = i + 1;
    }
    proof {
        assert(s@.take(n as int) =~= s@);
    }
    v
}

/// Copies the character range `[a, b)` of `v` into a fresh vector.
pub fn subvec(v: &Vec<char>, a: usize, b: usize) -> (r: Vec<char>)
    requires
        a <= b <= v@.len(),
    ensures
        r@ == v@.subrange(a as int, b as int),
{
    let mut r: Vec<char> = Vec::new();
    let mut i: usize = a;
    while i < b
        invariant
            a <= i <= b <= v@.len(),
            r@ == v@.subrange(a as int, i as int),
        decreases b - i,
    {
        r.push(v[i]);
        proof {
            assert(v@.subrange(a as int, i as int).push(v@[i as int]) =~= v@.subrange(
                a as int,
                i + 1 as int,
            ));
        }
        i = i + 1;
    }
    r
}

/// True when the character `c` occurs in `v`.
pub fn vec_contains_char(v: &Vec<char>, c: char) -> (r: bool)
    ensures
        r == contains_char(v@, c),
{
    let n: usize = v.len();
    let mut i: usize = 0;
    while i < n
        invariant
            i <= n,
            n == v@.len(),
            forall|j: int| 0 <= j < i ==> v@[j] != c,
        decreases n - i,
    {
        if v[i] == c {
            proof {
                assert(v@[i as int] == c);
            }
            return true;
        }
        i = i + 1;
    }
    false
}

/// True when the two character vectors hold the same characters.
pub fn chars_eq(a: &Vec<char>, b: &Vec<char>) -> (r: bool)
    ensures
        r == (a@ == b@),
{
    if a.len() != b.len() {
        return false;
    }
    let n: usize = a.len();
    let mut i: usize = 0;
    while i < n
        invariant
            i <= n,
            n == a@.len(),
            a@.len() == b@.len(),
            forall|j: int| 0 <= j < i ==> a@[j] == b@[j],
        decreases n - i,
    {
        if a[i] != b[i] {
            return false;
        }
        i = i + 1;
    }
    proof {
        assert(a@ =~= b@);
    }
    true
}

/// Copies a vector of strings, keeping every element.
pub fn clone_strings(v: &Vec<String>) -> (r: Vec<String>)
    ensures
        r@ == v@,
{
    let mut r: Vec<String> = Vec::new();
    let n: usize = v.len();
    let mut i: usize = 0;
    while i < n
        invariant
            i <= n,
            n == v@.len(),
            r@ == v@.take(i as int),
        decreases n - i,
    {
        r.push(v[i].clone());
        proof {
            assert(v@.take(i as int).push(v@[i as int]) =~= v@.take(i + 1 as int));
        }
        i = i + 1;
    }
    proof {
        assert(v@.take(n as int) =~= v@);
    }
    r
}

/// Relies on String::push: appends the given character to the end of
/// the string.
#[verifier::external_body]
fn push_char(s: &mut String, c: char)
    ensures
        final(s)@ == old(s)@.push(c),
{
    s.push(c);
}

/// Builds a string holding exactly the characters of `v`.
pub fn chars_to_string(v: &Vec<char>) -> (r: String)
    ensures
        r@ == v@,
{
    let mut s = String::new();
    let n: usize = v.len();
    let mut i: usize = 0;
    while i < n
        invariant
            i <= n,
            n == v@.len(),
            s@ == v@.take(i as int),
        decreases n - i,
    {
        push_char(&mut s, v[i]);
        proof {
            assert(v@.take(i as int).push(v@[i as int]) =~= v@.take(i + 1 as int));
        }
        i = i + 1;
    }
    proof {
        assert(v@.take(n as int) =~= v@);
    }
    s
}

/// True when `s` ends with the suffix `suf`.
pub open spec fn ends_with(s: Seq<char>, suf: Seq<char>) -> bool {
    s.len() >= suf.len() && s.subrange(s.len() - suf.len(), s.len() as int) == suf
}

/// True when the characters of `v` end with the characters of `suf`.
pub fn ends_with_chars(v: &Vec<char>, suf: &Vec<char>) -> (r: bool)
    ensures
        r == ends_with(v@, suf@),
{
    if v.len() < suf.len() {
        return false;
    }
    let tail = subvec(v, v.len() - suf.len(), v.len());
    chars_eq(&tail, suf)
}

/// The segments of `s` delimited by `sep`.  An empty sequence has one
/// empty segment; each separator ends the segment before it, so a
/// leading, trailing or doubled separator yields an empty segment.
pub open spec fn split_on(s: Seq<char>, sep: char) -> Seq<Seq<char>>
    decreases s.len(),
{
    if s.len() == 0 {
        seq![Seq::<char>::empty()]
    } else if s[0] == sep {
        seq![Seq::<char>::empty()] + split_on(s.skip(1), sep)
    } else {
        let rest = split_on(s.skip(1), sep);
        seq![seq![s[0]] + rest[0]] + rest.skip(1)
    }
}

pub proof fn lemma_split_on_len(s: Seq<char>, sep: char)
    ensures
        split_on(s, sep).len() >= 1,
    decreases s.len(),
{
    if s.len() == 0 {
    } else {
        lemma_split_on_len(s.skip(1), sep);
    }
}

/// A sequence without the separator splits into itself alone.
pub proof fn lemma_split_on_no_sep(s: Seq<char>, sep: char)
    requires
        !contains_char(s, sep),
    ensures
        split_on(s, sep) == seq![s],
    decreases s.len(),
{
    if s.len() == 0 {
        assert(s =~= Seq::<char>::empty());
        assert(split_on(s, sep) =~= seq![s]);
    } else {
        if s[0] == sep {
            assert(contains_char(s, sep));
        }
        assert(!contains_char(s.skip(1), sep)) by {
            if contains_char(s.skip(1), sep) {
                let i = choose|i: int| 0 <= i < s.skip(1).len() && s.skip(1)[i] == sep;
                assert(s[i + 1] == sep);
                assert(contains_char(s, sep));
            }
        }
        lemma_split_on_no_sep(s.skip(1), sep);
        assert(seq![s.skip(1)].skip(1) =~= Seq::<Seq<char>>::empty());
        assert(seq![s[0]] + s.skip(1) =~= s);
        assert(split_on(s, sep) =~= seq![s]);
    }
}

/// `segs` with `c` prefixed onto its first segment.
pub open spec fn prepend_seg(c: Seq<char>, segs: Seq<Seq<char>>) -> Seq<Seq<char>> {
    seq![c + segs[0]] + segs.skip(1)
}

/// The views of a sequence of character vectors.
pub open spec fn seq_views(s: Seq<Vec<char>>) -> Seq<Seq<char>> {
    Seq::new(s.len(), |i: int| s[i]@)
}

/// The views of a sequence of strings.
pub open spec fn str_views(s: Seq<String>) -> Seq<Seq<char>> {
    Seq::new(s.len(), |i: int| s[i]@)
}

/// Splits `v` at every occurrence of `sep`.
pub fn split_chars(v: &Vec<char>, sep: char) -> (r: Vec<Vec<char>>)
    ensures
        seq_views(r@) == split_on(v@, sep),
{
    let n: usize = v.len();
    let mut out: Vec<Vec<char>> = Vec::new();
    let mut cur: Vec<char> = Vec::new();
    let mut i: usize = 0;
    proof {
        lemma_split_on_len(v@, sep);
        assert(v@.skip(0) =~= v@);
        assert(prepend_seg(Seq::<char>::empty(), split_on(v@, sep)) =~= split_on(v@, sep));
        assert(seq_views(out@) + prepend_seg(cur@, split_on(v@.skip(0), sep)) =~= split_on(
            v@,
            sep,
        ));
    }
    while i < n
        invariant
            i <= n,
            n == v@.len(),
            split_on(v@, sep) == seq_views(out@) + prepend_seg(cur@, split_on(
                v@.skip(i as int),
                sep,
            )),
        decreases n - i,
    {
        proof {
            assert(v@.skip(i as int)[0] == v@[i as int]);
            assert(v@.skip(i as int).skip(1) =~= v@.skip(i + 1 as int));
            lemma_split_on_len(v@.skip(i + 1 as int), sep);
        }
        let c = v[i];
        if c == sep {
            let ghost old_out = out@;
            let ghost old_cur = cur@;
            out.push(cur);
            cur = Vec::new();
            proof {
                let rest = split_on(v@.skip(i + 1 as int), sep);
                assert(prepend_seg(old_cur, seq![Seq::<char>::empty()] + rest) =~= seq![old_cur]
                    + rest);
                assert(seq_views(out@) =~= seq_views(old_out) + seq![old_cur]);
                assert(prepend_seg(Seq::<char>::empty(), rest) =~= rest);
                assert(seq_views(out@) + prepend_seg(cur@, rest) =~= seq_views(old_out)
                    + prepend_seg(old_cur, split_on(v@.skip(i as int), sep)));
            }
        } else {
            let ghost old_cur = cur@;
            cur.push(c);
            proof {
                let rest = split_on(v@.skip(i + 1 as int), sep);
                let whole = split_on(v@.skip(i as int), sep);
                assert(whole == seq![seq![v@[i as int]] + rest[0]] + rest.skip(1));
                assert(whole.skip(1) =~= rest.skip(1));
                assert(old_cur + whole[0] =~= cur@ + rest[0]);
                assert(prepend_seg(old_cur, whole) =~= prepend_seg(cur@, rest));
            }
        }
        i = i + 1;
    }
    proof {
        assert(v@.skip(n as int) =~= Seq::<char>::empty());
        let last = split_on(v@.skip(n as int), sep);
        assert(last =~= seq![Seq::<char>::empty()]);
        assert(prepend_seg(cur@, last) =~= seq![cur@]);
    }
    let ghost old_out = out@;
    let ghost final_cur = cur@;
    out.push(cur);
    proof {
        assert(seq_views(out@) =~= seq_views(old_out) + seq![final_cur]);
        assert(seq_views(out@) =~= split_on(v@, sep));
    }
    out
}

} // verus!
