//! Contributor-history analysis: parsing the per-author commit counts
//! that a revision-control shortlog reports, picking the top
//! contributor, and turning an author email into an owner token.
//!
//! Running the revision-control tool is the caller's business; this
//! module handles the text it prints.

use vstd::prelude::*;
use vstd::string::StringExecFns;

use crate::text::char_is_space;
use crate::text::chars_to_string;
use crate::text::ends_with;
use crate::text::ends_with_chars;
use crate::text::is_space;
use crate::text::seq_views;
use crate::text::split_chars;
use crate::text::split_on;
use crate::text::subvec;
use crate::text::to_chars;

verus! {

/// `s` without its leading whitespace.
pub open spec fn ltrim(s: Seq<char>) -> Seq<char>
    decreases s.len(),
{
    if s.len() > 0 && is_space(s[0]) {
        ltrim(s.skip(1))
    } else {
        s
    }
}

/// `s` without its trailing whitespace.
pub open spec fn rtrim(s: Seq<char>) -> Seq<char>
    decreases s.len(),
{
    if s.len() > 0 && is_space(s.last()) {
        rtrim(s.drop_last())
    } else {
        s
    }
}

/// `s` without leading and trailing whitespace.
pub open spec fn trim(s: Seq<char>) -> Seq<char> {
    rtrim(ltrim(s))
}

/// The position of the first occurrence of `c` in `s`, or the length
/// of `s` when `c` does not occur.
pub open spec fn first_index_of(s: Seq<char>, c: char) -> int
    decreases s.len(),
{
    if s.len() == 0 {
        0
    } else if s[0] == c {
        0
    } else {
        1 + first_index_of(s.skip(1), c)
    }
}

/// The position of the last occurrence of `c` in `s`, or `-1` when
/// `c` does not occur.
pub open spec fn last_index_of(s: Seq<char>, c: char) -> int
    decreases s.len(),
{
    if s.len() == 0 {
        -1
    } else if s.last() == c {
        s.len() - 1
    } else {
        last_index_of(s.drop_last(), c)
    }
}

/// The part of `s` before the first occurrence of `c`, or all of `s`.
pub open spec fn prefix_before_first(s: Seq<char>, c: char) -> Seq<char> {
    s.take(first_index_of(s, c))
}

/// The part of `s` after the last occurrence of `c`, or all of `s`.
pub open spec fn suffix_after_last(s: Seq<char>, c: char) -> Seq<char> {
    s.skip(last_index_of(s, c) + 1)
}

pub proof fn lemma_first_index_of(s: Seq<char>, c: char, k: int)
    requires
        0 <= k <= s.len(),
        forall|j: int| 0 <= j < k ==> s[j] != c,
        k == s.len() || s[k] == c,
    ensures
        first_index_of(s, c) == k,
    decreases k,
{
    if k == 0 {
    } else {
        assert(s[0] != c);
        lemma_first_index_of(s.skip(1), c, k - 1);
    }
}

pub proof fn lemma_last_index_of(s: Seq<char>, c: char, k: int)
    requires
        -1 <= k < s.len(),
        forall|j: int| k < j < s.len() ==> s[j] != c,
        k == -1 || s[k] == c,
    ensures
        last_index_of(s, c) == k,
    decreases s.len(),
{
    if s.len() == 0 {
    } else if k == s.len() - 1 {
    } else {
        assert(s.last() != c);
        assert(forall|j: int| k < j < s.drop_last().len() ==> s.drop_last()[j] != c);
        lemma_last_index_of(s.drop_last(), c, k);
    }
}

/// Drops the leading whitespace of `v`.
fn ltrim_chars(v: &Vec<char>) -> (r: Vec<char>)
    ensures
        r@ == ltrim(v@),
{
    let n: usize = v.len();
    let mut i: usize = 0;
    proof {
        assert(v@.skip(0) =~= v@);
    }
    while i < n && char_is_space(v[i])
        invariant
            i <= n,
            n == v@.len(),
            ltrim(v@) == ltrim(v@.skip(i as int)),
        decreases n - i,
    {
        proof {
            assert(v@.skip(i as int)[0] == v@[i as int]);
            assert(v@.skip(i as int).skip(1) =~= v@.skip(i + 1 as int));
        }
        i = i + 1;
    }
    proof {
        if i < n {
            assert(v@.skip(i as int)[0] == v@[i as int]);
        }
        assert(ltrim(v@.skip(i as int)) == v@.skip(i as int));
        assert(v@.skip(i as int) =~= v@.subrange(i as int, n as int));
    }
    subvec(v, i, n)
}

/// Drops the trailing whitespace of `v`.
fn rtrim_chars(v: &Vec<char>) -> (r: Vec<char>)
    ensures
        r@ == rtrim(v@),
{
    let mut e: usize = v.len();
    proof {
        assert(v@.take(e as int) =~= v@);
    }
    while e > 0 && char_is_space(v[e - 1])
        invariant
            e <= v@.len(),
            rtrim(v@) == rtrim(v@.take(e as int)),
        decreases e,
    {
        proof {
            assert(v@.take(e as int).last() == v@[e - 1]);
            assert(v@.take(e as int).drop_last() =~= v@.take(e - 1));
        }
        e = e - 1;
    }
    proof {
        if e > 0 {
            assert(v@.take(e as int).last() == v@[e - 1]);
        }
        assert(rtrim(v@.take(e as int)) == v@.take(e as int));
        assert(v@.take(e as int) =~= v@.subrange(0, e as int));
    }
    subvec(v, 0, e)
}

/// Drops the leading and trailing whitespace of `v`.
pub fn trim_chars(v: &Vec<char>) -> (r: Vec<char>)
    ensures
        r@ == trim(v@),
{
    let l = ltrim_chars(v);
    rtrim_chars(&l)
}

/// Finds the first occurrence of `c` in `v`, or the length of `v`.
fn find_first(v: &Vec<char>, c: char) -> (k: usize)
    ensures
        k as int == first_index_of(v@, c),
        k <= v@.len(),
        k < v@.len() ==> v@[k as int] == c,
{
    let n: usize = v.len();
    let mut i: usize = 0;
    while i < n
        invariant
            i <= n,
            n == v@.len(),
            forall|j: int| 0 <= j < i ==> v@[j] != c,
        decreases n - i,
    {
        if v[i] == c {
            proof {
                lemma_first_index_of(v@, c, i as int);
            }
            return i;
        }
        i = i + 1;
    }
    proof {
        lemma_first_index_of(v@, c, n as int);
    }
    n
}

/// Finds the last occurrence of `c` in `v`: the returned position is
/// one past it, or zero when `c` does not occur.
fn find_after_last(v: &Vec<char>, c: char) -> (k: usize)
    ensures
        k as int == last_index_of(v@, c) + 1,
        k <= v@.len(),
{
    let mut e: usize = v.len();
    while e > 0
        invariant
            e <= v@.len(),
            forall|j: int| e <= j < v@.len() ==> v@[j] != c,
        decreases e,
    {
        if v[e - 1] == c {
            proof {
                lemma_last_index_of(v@, c, e - 1 as int);
            }
            return e;
        }
        e = e - 1;
    }
    proof {
        lemma_last_index_of(v@, c, -1);
    }
    0
}

/// True when `sub` occurs as a contiguous part of `s`.
pub open spec fn contains_seq(s: Seq<char>, sub: Seq<char>) -> bool {
    exists|i: int| 0 <= i <= s.len() - sub.len() && #[trigger] s.subrange(i, i + sub.len()) == sub
}

/// What str::to_lowercase returns: a function of the characters alone.
pub uninterp spec fn lower_of(s: Seq<char>) -> Seq<char>;

/// Relies on str::to_lowercase: the result depends on the characters
/// alone.
#[verifier::external_body]
fn to_lowercase_string(s: &str) -> (r: String)
    ensures
        r@ == lower_of(s@),
        s@.len() == 0 ==> r@.len() == 0,
{
    s.to_lowercase()
}

/// What char::is_alphanumeric returns: a function of the character
/// alone.
pub uninterp spec fn is_alnum(c: char) -> bool;

/// Relies on char::is_alphanumeric: the result depends on the
/// character alone.
#[verifier::external_body]
fn char_is_alnum(c: char) -> (r: bool)
    ensures
        r == is_alnum(c),
{
    c.is_alphanumeric()
}

/// A display name reduced to an owner-like token: every space becomes
/// a dash, and only alphanumeric characters, dashes and underscores
/// are kept.
pub open spec fn clean_name_chars(s: Seq<char>) -> Seq<char>
    decreases s.len(),
{
    if s.len() == 0 {
        Seq::empty()
    } else {
        let rest = clean_name_chars(s.drop_last());
        let c = if s.last() == ' ' {
            '-'
        } else {
            s.last()
        };
        if is_alnum(c) || c == '-' || c == '_' {
            rest.push(c)
        } else {
            rest
        }
    }
}

/// The owner token suggested for an author: for a forge no-reply
/// address, the account name it embeds; for a forge-hosted address,
/// the part before the `@`; otherwise the lowercased display name
/// reduced to an owner-like token when at least two characters of it
/// survive, and failing that the email itself.
pub open spec fn email_owner_spec(email: Seq<char>, name: Seq<char>) -> Seq<char> {
    if contains_seq(email, "@users.noreply.github.com"@) {
        seq!['@'] + suffix_after_last(prefix_before_first(email, '@'), '+')
    } else if ends_with(email, "@github.com"@) {
        seq!['@'] + prefix_before_first(email, '@')
    } else {
        let clean = clean_name_chars(lower_of(name));
        if clean.len() >= 2 {
            seq!['@'] + clean
        } else {
            email
        }
    }
}

/// Converts an author email (with the author's display name as a
/// fallback) to an owner token.
pub fn email_to_owner(email: &str, name: &str) -> (r: String)
    ensures
        r@ == email_owner_spec(email@, name@),
{
    let ec = to_chars(email);
    let noreply = to_chars("@users.noreply.github.com");
    if contains_sub(&ec, &noreply) {
        let k = find_first(&ec, '@');
        let pre = subvec(&ec, 0, k);
        proof {
            assert(ec@.subrange(0, k as int) =~= ec@.take(k as int));
        }
        let p = find_after_last(&pre, '+');
        let user = subvec(&pre, p, pre.len());
        proof {
            assert(pre@.subrange(p as int, pre@.len() as int) =~= pre@.skip(p as int));
        }
        let mut s = String::from_str("@");
        let rest = chars_to_string(&user);
        s.append(rest.as_str());
        proof {
            reveal_strlit("@");
            assert("@"@ =~= seq!['@']);
        }
        return s;
    }
    let ghcom = to_chars("@github.com");
    if ends_with_chars(&ec, &ghcom) {
        let k = find_first(&ec, '@');
        let pre = subvec(&ec, 0, k);
        proof {
            assert(ec@.subrange(0, k as int) =~= ec@.take(k as int));
        }
        let mut s = String::from_str("@");
        let rest = chars_to_string(&pre);
        s.append(rest.as_str());
        proof {
            reveal_strlit("@");
            assert("@"@ =~= seq!['@']);
        }
        return s;
    }
    let lowered = to_lowercase_string(name);
    let lc = to_chars(lowered.as_str());
    let mut clean: Vec<char> = Vec::new();
    let n: usize = lc.len();
    let mut i: usize = 0;
    proof {
        assert(lc@.take(0) =~= Seq::<char>::empty());
        assert(clean@ =~= clean_name_chars(lc@.take(0)));
    }
    while i < n
        invariant
            i <= n,
            n == lc@.len(),
            clean@ == clean_name_chars(lc@.take(i as int)),
        decreases n - i,
    {
        proof {
            assert(lc@.take(i + 1 as int).drop_last() =~= lc@.take(i as int));
            assert(lc@.take(i + 1 as int).last() == lc@[i as int]);
        }
        let c0 = lc[i];
        let c: char = if c0 == ' ' {
            '-'
        } else {
            c0
        };
        if char_is_alnum(c) || c == '-' || c == '_' {
            clean.push(c);
        }
        i = i + 1;
    }
    proof {
        assert(lc@.take(n as int) =~= lc@);
    }
    if clean.len() >= 2 {
        let mut s = String::from_str("@");
        let rest = chars_to_string(&clean);
        s.append(rest.as_str());
        proof {
            reveal_strlit("@");
            assert("@"@ =~= seq!['@']);
        }
        s
    } else {
        email.to_owned()
    }
}

/// True when the characters of `sub` occur contiguously in `v`.
fn contains_sub(v: &Vec<char>, sub: &Vec<char>) -> (r: bool)
    ensures
        r == contains_seq(v@, sub@),
{
    if sub.len() > v.len() {
        return false;
    }
    if sub.len() == 0 {
        proof {
            assert(v@.subrange(0, 0 + sub@.len() as int) =~= sub@);
            assert(contains_seq(v@, sub@));
        }
        return true;
    }
    let last_start: usize = v.len() - sub.len();
    let mut i: usize = 0;
    while i <= last_start
        invariant
            i <= last_start + 1,
            last_start == v@.len() - sub@.len(),
            1 <= sub@.len() <= v@.len(),
            v@.len() <= usize::MAX,
            forall|j: int| 0 <= j < i ==> #[trigger] v@.subrange(j, j + sub@.len()) != sub@,
        decreases last_start + 1 - i,
    {
        let w = subvec(v, i, i + sub.len());
        if crate::text::chars_eq(&w, sub) {
            proof {
                assert(v@.subrange(i as int, i + sub@.len()) == sub@);
            }
            return true;
        }
        i = i + 1;
    }
    false
}

/// True when every character of `s` is a decimal digit.
pub open spec fn all_digits(s: Seq<char>) -> bool {
    forall|i: int| 0 <= i < s.len() ==> '0' <= #[trigger] s[i] <= '9'
}

/// The value of a sequence of decimal digits.
pub open spec fn digits_val(s: Seq<char>) -> int
    decreases s.len(),
{
    if s.len() == 0 {
        0
    } else {
        digits_val(s.drop_last()) * 10 + (s.last() as int - 48)
    }
}

pub proof fn lemma_digits_val_nonneg(s: Seq<char>)
    requires
        all_digits(s),
    ensures
        digits_val(s) >= 0,
    decreases s.len(),
{
    if s.len() > 0 {
        assert(all_digits(s.drop_last()));
        lemma_digits_val_nonneg(s.drop_last());
    }
}

/// Extending a digit string never shrinks its value.
pub proof fn lemma_digits_val_monotone(s: Seq<char>, i: int)
    requires
        all_digits(s),
        0 <= i <= s.len(),
    ensures
        digits_val(s.take(i)) <= digits_val(s),
    decreases s.len() - i,
{
    if i == s.len() {
        assert(s.take(i) =~= s);
    } else {
        assert(s.take(i + 1).drop_last() =~= s.take(i));
        assert(s.take(i + 1).last() == s[i]);
        assert(all_digits(s.take(i))) by {
            assert(forall|j: int| 0 <= j < i ==> s.take(i)[j] == s[j]);
        }
        lemma_digits_val_nonneg(s.take(i));
        assert(digits_val(s.take(i)) <= digits_val(s.take(i + 1)));
        lemma_digits_val_monotone(s, i + 1);
    }
}

/// What a decimal count token parses to: an optional leading `+`,
/// then at least one digit, the value fitting the machine word;
/// anything else fails.
pub open spec fn parse_usize_spec(s: Seq<char>) -> Option<int> {
    let body = if s.len() > 0 && s[0] == '+' {
        s.skip(1)
    } else {
        s
    };
    if body.len() > 0 && all_digits(body) && digits_val(body) <= usize::MAX as int {
        Some(digits_val(body))
    } else {
        None
    }
}

/// Parses a decimal count: an optional leading `+`, then digits.
pub fn parse_usize(s: &str) -> (r: Option<usize>)
    ensures
        match r {
            Some(v) => parse_usize_spec(s@) == Some(v as int),
            None => parse_usize_spec(s@) is None,
        },
{
    let sc = to_chars(s);
    let start: usize = if sc.len() > 0 && sc[0] == '+' {
        1
    } else {
        0
    };
    let ghost body = if sc@.len() > 0 && sc@[0] == '+' {
        sc@.skip(1)
    } else {
        sc@
    };
    proof {
        if start == 1 {
            assert(body =~= sc@.skip(start as int));
        } else {
            assert(body =~= sc@.skip(0));
        }
    }
    if start == sc.len() {
        return None;
    }
    let n: usize = sc.len();
    let mut acc: usize = 0;
    let mut i: usize = start;
    proof {
        assert(body.take(0) =~= Seq::<char>::empty());
    }
    while i < n
        invariant
            start <= i <= n,
            n == sc@.len(),
            sc@ == s@,
            body == sc@.skip(start as int),
            body == (if s@.len() > 0 && s@[0] == '+' {
                s@.skip(1)
            } else {
                s@
            }),
            all_digits(body.take(i - start)),
            acc as int == digits_val(body.take(i - start)),
        decreases n - i,
    {
        proof {
            assert(body[i - start] == sc@[i as int]);
            assert(body.take(i + 1 - start).drop_last() =~= body.take(i - start));
            assert(body.take(i + 1 - start).last() == body[i - start]);
        }
        let c: char = sc[i];
        proof {
            assert(body[i - start] == c);
        }
        if c < '0' || c > '9' {
            proof {
                if all_digits(body) {
                    assert('0' <= body[i - start] <= '9');
                }
            }
            return None;
        }
        proof {
            assert('0' <= body[i - start] <= '9');
            assert(all_digits(body.take(i + 1 - start))) by {
                assert(forall|j: int|
                    0 <= j < i - start ==> #[trigger] body.take(i + 1 - start)[j] == body.take(
                        i - start,
                    )[j]);
                assert(body.take(i + 1 - start)[i - start] == body[i - start]);
            }
        }
        let d: u64 = (c as u32 - 48) as u64;
        let t: u128 = (acc as u128) * 10 + (d as u128);
        if t > usize::MAX as u128 {
            proof {
                assert(all_digits(body.take(i + 1 - start)));
                assert(digits_val(body.take(i + 1 - start)) == t);
                if all_digits(body) {
                    lemma_digits_val_monotone(body, i + 1 - start);
                    assert(digits_val(body) > usize::MAX as int);
                }
            }
            return None;
        }
        acc = t as usize;
        i = i + 1;
    }
    proof {
        assert(body.take(n - start) =~= body);
    }
    Some(acc)
}

/// One contributor parsed from a shortlog line.
pub struct ShortlogEntry {
    /// Author display name.
    pub name: String,
    /// Author email.
    pub email: String,
    /// Number of commits touching the queried path.
    pub commit_count: usize,
}

/// The mathematical content of a contributor entry.
pub struct ShortlogEntryModel {
    pub name: Seq<char>,
    pub email: Seq<char>,
    pub commit_count: int,
}

impl View for ShortlogEntry {
    type V = ShortlogEntryModel;

    open spec fn view(&self) -> ShortlogEntryModel {
        ShortlogEntryModel {
            name: self.name@,
            email: self.email@,
            commit_count: self.commit_count as int,
        }
    }
}

/// The models of a sequence of contributor entries.
pub open spec fn entry_models(s: Seq<ShortlogEntry>) -> Seq<ShortlogEntryModel> {
    Seq::new(s.len(), |i: int| s[i]@)
}

/// What one shortlog line yields.
pub enum ShortlogLineModel {
    /// Blank, or no tab separator: the line is skipped.
    Skip,
    /// A malformed commit count: the whole parse fails.
    Fail,
    /// A contributor entry.
    Entry(ShortlogEntryModel),
}

/// The author's display name and email, split out of `Name <email>`:
/// the text between the first `<` and the first `>` after it is the
/// email and what stands before the `<` is the name; without such a
/// bracket pair the whole text is the name and the email is empty.
pub open spec fn author_parts(author: Seq<char>) -> (Seq<char>, Seq<char>) {
    let a = first_index_of(author, '<');
    let b = first_index_of(author, '>');
    if a < author.len() && b < author.len() && a + 1 <= b {
        (trim(author.take(a)), author.subrange(a + 1, b))
    } else {
        (author, Seq::empty())
    }
}

/// What one shortlog line (`  <count>\t<name> <email>`) parses to.
pub open spec fn shortlog_line_spec(line: Seq<char>) -> ShortlogLineModel {
    let t = trim(line);
    let k = first_index_of(t, '\t');
    if t.len() == 0 {
        ShortlogLineModel::Skip
    } else if k >= t.len() {
        ShortlogLineModel::Skip
    } else {
        let count_tok = trim(t.take(k));
        let author = trim(t.skip(k + 1));
        match parse_usize_spec(count_tok) {
            Some(v) => ShortlogLineModel::Entry(
                ShortlogEntryModel {
                    name: author_parts(author).0,
                    email: author_parts(author).1,
                    commit_count: v,
                },
            ),
            None => ShortlogLineModel::Fail,
        }
    }
}

/// The entries of a whole shortlog, or `None` when a line holds a
/// malformed count.
pub open spec fn shortlog_entries_spec(lines: Seq<Seq<char>>) -> Option<Seq<ShortlogEntryModel>>
    decreases lines.len(),
{
    if lines.len() == 0 {
        Some(Seq::empty())
    } else {
        match shortlog_entries_spec(lines.drop_last()) {
            None => None,
            Some(es) => match shortlog_line_spec(lines.last()) {
                ShortlogLineModel::Skip => Some(es),
                ShortlogLineModel::Fail => None,
                ShortlogLineModel::Entry(e) => Some(es.push(e)),
            },
        }
    }
}

/// The total commit count of a sequence of entries.
pub open spec fn sum_counts(es: Seq<ShortlogEntryModel>) -> int
    decreases es.len(),
{
    if es.len() == 0 {
        0
    } else {
        sum_counts(es.drop_last()) + es.last().commit_count
    }
}

/// What a whole shortlog parses to: its entries, unless a count is
/// malformed, no contributor is found at all, or the total overflows
/// the machine word.
pub open spec fn parse_shortlog_spec(text: Seq<char>) -> Option<Seq<ShortlogEntryModel>> {
    match shortlog_entries_spec(split_on(text, '\n')) {
        None => None,
        Some(es) => if es.len() > 0 && sum_counts(es) <= usize::MAX as int {
            Some(es)
        } else {
            None
        },
    }
}

proof fn lemma_entries_none_persists(lines: Seq<Seq<char>>, j: int)
    requires
        0 <= j <= lines.len(),
        shortlog_entries_spec(lines.take(j)) is None,
    ensures
        shortlog_entries_spec(lines) is None,
    decreases lines.len() - j,
{
    if j == lines.len() {
        assert(lines.take(j) =~= lines);
    } else {
        assert(lines.take(j + 1).drop_last() =~= lines.take(j));
        lemma_entries_none_persists(lines, j + 1);
    }
}

proof fn lemma_sum_counts_monotone(es: Seq<ShortlogEntryModel>, i: int)
    requires
        0 <= i <= es.len(),
        forall|j: int| 0 <= j < es.len() ==> es[j].commit_count >= 0,
    ensures
        sum_counts(es.take(i)) <= sum_counts(es),
    decreases es.len() - i,
{
    if i == es.len() {
        assert(es.take(i) =~= es);
    } else {
        assert(es.take(i + 1).drop_last() =~= es.take(i));
        assert(es.take(i + 1).last() == es[i]);
        lemma_sum_counts_monotone(es, i + 1);
    }
}

fn parse_shortlog_line(line: &Vec<char>) -> (r: Option<Option<ShortlogEntry>>)
    ensures
        match r {
            Some(Some(e)) => shortlog_line_spec(line@) == ShortlogLineModel::Entry(e@),
            Some(None) => shortlog_line_spec(line@) is Skip,
            None => shortlog_line_spec(line@) is Fail,
        },
{
    let t = trim_chars(line);
    if t.len() == 0 {
        return Some(None);
    }
    let k = find_first(&t, '\t');
    if k == t.len() {
        return Some(None);
    }
    let count_part = subvec(&t, 0, k);
    proof {
        assert(t@.subrange(0, k as int) =~= t@.take(k as int));
    }
    let count_tok = trim_chars(&count_part);
    let author_part = subvec(&t, k + 1, t.len());
    proof {
        assert(t@.subrange(k + 1 as int, t@.len() as int) =~= t@.skip(k + 1 as int));
    }
    let author = trim_chars(&author_part);
    let count_str = chars_to_string(&count_tok);
    match parse_usize(count_str.as_str()) {
        None => None,
        Some(v) => {
            let a = find_first(&author, '<');
            let b = find_first(&author, '>');
            if a < author.len() && b < author.len() && a + 1 <= b {
                let name_part = subvec(&author, 0, a);
                proof {
                    assert(author@.subrange(0, a as int) =~= author@.take(a as int));
                }
                let name_chars = trim_chars(&name_part);
                let email_chars = subvec(&author, a + 1, b);
                Some(
                    Some(
                        ShortlogEntry {
                            name: chars_to_string(&name_chars),
                            email: chars_to_string(&email_chars),
                            commit_count: v,
                        },
                    ),
                )
            } else {
                Some(
                    Some(
                        ShortlogEntry {
                            name: chars_to_string(&author),
                            email: String::new(),
                            commit_count: v,
                        },
                    ),
                )
            }
        },
    }
}

/// Parses the text a shortlog prints, one contributor per line, into
/// the entries and the total commit count.  Returns `None` when a
/// count is malformed, when no contributor is found, or when the
/// total does not fit the machine word.
pub fn parse_shortlog_entries(output: &str) -> (r: Option<(Vec<ShortlogEntry>, usize)>)
    ensures
        match r {
            Some(p) => {
                &&& parse_shortlog_spec(output@) == Some(entry_models(p.0@))
                &&& p.1 as int == sum_counts(entry_models(p.0@))
            },
            None => parse_shortlog_spec(output@) is None,
        },
{
    let tc = to_chars(output);
    let lines = split_chars(&tc, '\n');
    let ghost segs = seq_views(lines@);
    let mut out: Vec<ShortlogEntry> = Vec::new();
    let n: usize = lines.len();
    let mut i: usize = 0;
    proof {
        assert(segs.take(0) =~= Seq::<Seq<char>>::empty());
        assert(entry_models(out@) =~= Seq::<ShortlogEntryModel>::empty());
    }
    while i < n
        invariant
            i <= n,
            n == lines@.len(),
            segs == seq_views(lines@),
            segs == split_on(output@, '\n'),
            shortlog_entries_spec(segs.take(i as int)) == Some(entry_models(out@)),
        decreases n - i,
    {
        proof {
            assert(segs.take(i + 1 as int).drop_last() =~= segs.take(i as int));
            assert(segs.take(i + 1 as int).last() == lines@[i as int]@);
        }
        match parse_shortlog_line(&lines[i]) {
            Some(Some(e)) => {
                let ghost old_out = out@;
                out.push(e);
                proof {
                    assert(entry_models(out@) =~= entry_models(old_out).push(e@));
                }
            },
            Some(None) => {},
            None => {
                proof {
                    lemma_entries_none_persists(segs, i + 1 as int);
                }
                return None;
            },
        }
        i = i + 1;
    }
    proof {
        assert(segs.take(n as int) =~= segs);
    }
    if out.len() == 0 {
        return None;
    }
    let ghost ms = entry_models(out@);
    let mut total: u128 = 0;
    let m: usize = out.len();
    let mut j: usize = 0;
    proof {
        assert(ms.take(0) =~= Seq::<ShortlogEntryModel>::empty());
    }
    while j < m
        invariant
            j <= m,
            m == out@.len(),
            ms == entry_models(out@),
            total as int == sum_counts(ms.take(j as int)),
            total <= usize::MAX as u128,
            shortlog_entries_spec(split_on(output@, '\n')) == Some(ms),
            ms.len() > 0,
        decreases m - j,
    {
        proof {
            assert(ms.take(j + 1 as int).drop_last() =~= ms.take(j as int));
            assert(ms.take(j + 1 as int).last() == ms[j as int]);
        }
        total = total + (out[j].commit_count as u128);
        if total > usize::MAX as u128 {
            proof {
                assert(forall|x: int| 0 <= x < ms.len() ==> ms[x].commit_count >= 0);
                lemma_sum_counts_monotone(ms, j + 1 as int);
            }
            return None;
        }
        j = j + 1;
    }
    proof {
        assert(ms.take(m as int) =~= ms);
    }
    Some((out, total as usize))
}

/// The position of the top contributor: the first entry whose commit
/// count no other entry exceeds.
pub fn top_entry_index(entries: &Vec<ShortlogEntry>) -> (r: Option<usize>)
    ensures
        match r {
            Some(i) => {
                &&& i < entries@.len()
                &&& forall|j: int|
                    0 <= j < entries@.len() ==> entries@[j].commit_count <= entries@[i as int].commit_count
                &&& forall|j: int|
                    0 <= j < i ==> entries@[j].commit_count < entries@[i as int].commit_count
            },
            None => entries@.len() == 0,
        },
{
    let n: usize = entries.len();
    if n == 0 {
        return None;
    }
    let mut best: usize = 0;
    let mut i: usize = 1;
    while i < n
        invariant
            best < i <= n,
            n == entries@.len(),
            forall|j: int|
                0 <= j < i ==> entries@[j].commit_count <= entries@[best as int].commit_count,
            forall|j: int|
                0 <= j < best ==> entries@[j].commit_count < entries@[best as int].commit_count,
        decreases n - i,
    {
        if entries[i].commit_count > entries[best].commit_count {
            best = i;
        }
        i = i + 1;
    }
    Some(best)
}

} // verus!
