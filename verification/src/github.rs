//! Owner-identity metadata and the validation caches.
//!
//! The remote directory service that validates owners is an external
//! collaborator; this module holds what the library itself guarantees:
//! the metadata types, a key-value cache from owner token to validation
//! result with last-write-wins insertion, the persistent cache's
//! staleness rule, and the classification of an owner token into the
//! kind of lookup the directory service would need.

use vstd::prelude::*;

use crate::text::chars_to_string;
use crate::text::contains_char;
use crate::text::seq_views;
use crate::text::split_chars;
use crate::text::split_on;
use crate::text::subvec;
use crate::text::to_chars;

verus! {

/// Metadata for a user account.
pub struct UserInfo {
    pub login: String,
    pub name: Option<String>,
    pub html_url: String,
    pub avatar_url: Option<String>,
    pub bio: Option<String>,
    pub company: Option<String>,
}

/// Metadata for a team.
pub struct TeamInfo {
    pub slug: String,
    pub name: String,
    pub org: String,
    pub description: Option<String>,
    pub html_url: String,
    pub members_count: Option<u32>,
    pub repos_count: Option<u32>,
}

/// Validation result with optional metadata.
pub enum OwnerInfo {
    /// Valid user with metadata.
    User(UserInfo),
    /// Valid team with metadata.
    Team(TeamInfo),
    /// Invalid owner (does not exist).
    Invalid,
    /// Could not be validated (no permission, rate limited, and so on).
    Unknown,
}

impl OwnerInfo {
    /// True for a validated user or team.
    pub fn is_valid(&self) -> (r: bool)
        ensures
            r == (self is User || self is Team),
    {
        matches!(self, OwnerInfo::User(_) | OwnerInfo::Team(_))
    }

    /// True for an owner that is known not to exist.
    pub fn is_invalid(&self) -> (r: bool)
        ensures
            r == (self is Invalid),
    {
        matches!(self, OwnerInfo::Invalid)
    }
}

fn clone_opt_string(o: &Option<String>) -> (r: Option<String>)
    ensures
        r == *o,
{
    match o {
        Option::Some(s) => Option::Some(s.clone()),
        Option::None => Option::None,
    }
}

/// Copies an owner-validation result, field by field.
pub fn clone_owner_info(info: &OwnerInfo) -> (r: OwnerInfo)
    ensures
        r == *info,
{
    match info {
        OwnerInfo::User(u) => OwnerInfo::User(
            UserInfo {
                login: u.login.clone(),
                name: clone_opt_string(&u.name),
                html_url: u.html_url.clone(),
                avatar_url: clone_opt_string(&u.avatar_url),
                bio: clone_opt_string(&u.bio),
                company: clone_opt_string(&u.company),
            },
        ),
        OwnerInfo::Team(t) => OwnerInfo::Team(
            TeamInfo {
                slug: t.slug.clone(),
                name: t.name.clone(),
                org: t.org.clone(),
                description: clone_opt_string(&t.description),
                html_url: t.html_url.clone(),
                members_count: t.members_count,
                repos_count: t.repos_count,
            },
        ),
        OwnerInfo::Invalid => OwnerInfo::Invalid,
        OwnerInfo::Unknown => OwnerInfo::Unknown,
    }
}

/// The views of a sequence of owner entries.
pub open spec fn pair_views(s: Seq<(String, OwnerInfo)>) -> Seq<(Seq<char>, OwnerInfo)> {
    Seq::new(s.len(), |i: int| (s[i].0@, s[i].1))
}

/// The map that a sequence of entries denotes, later entries winning.
pub open spec fn entries_map(s: Seq<(Seq<char>, OwnerInfo)>) -> Map<Seq<char>, OwnerInfo>
    decreases s.len(),
{
    if s.len() == 0 {
        Map::empty()
    } else {
        entries_map(s.drop_last()).insert(s.last().0, s.last().1)
    }
}

/// True when some entry carries the key `k`.
pub open spec fn has_key(s: Seq<(Seq<char>, OwnerInfo)>, k: Seq<char>) -> bool {
    exists|i: int| 0 <= i < s.len() && s[i].0 == k
}

/// No two entries carry the same key.
pub open spec fn distinct_keys(s: Seq<(Seq<char>, OwnerInfo)>) -> bool {
    forall|i: int, j: int| 0 <= i < j < s.len() ==> s[i].0 != s[j].0
}

/// The keys of the entries whose result is a validated user or team.
pub open spec fn valid_keys(s: Seq<(Seq<char>, OwnerInfo)>) -> Seq<Seq<char>>
    decreases s.len(),
{
    if s.len() == 0 {
        Seq::empty()
    } else {
        let rest = valid_keys(s.drop_last());
        if s.last().1 is User || s.last().1 is Team {
            rest.push(s.last().0)
        } else {
            rest
        }
    }
}

pub proof fn lemma_entries_map_domain(s: Seq<(Seq<char>, OwnerInfo)>, k: Seq<char>)
    ensures
        entries_map(s).contains_key(k) == has_key(s, k),
    decreases s.len(),
{
    if s.len() == 0 {
    } else {
        let d = s.drop_last();
        lemma_entries_map_domain(d, k);
        if s.last().0 == k {
            assert(s[s.len() - 1].0 == k);
            assert(has_key(s, k));
        } else if has_key(d, k) {
            let i = choose|i: int| 0 <= i < d.len() && d[i].0 == k;
            assert(s[i].0 == k);
            assert(has_key(s, k));
        } else {
            if has_key(s, k) {
                let i = choose|i: int| 0 <= i < s.len() && s[i].0 == k;
                assert(i < s.len() - 1);
                assert(d[i].0 == k);
                assert(has_key(d, k));
            }
        }
    }
}

pub proof fn lemma_entries_map_at(s: Seq<(Seq<char>, OwnerInfo)>, i: int)
    requires
        distinct_keys(s),
        0 <= i < s.len(),
    ensures
        entries_map(s).contains_key(s[i].0),
        entries_map(s)[s[i].0] == s[i].1,
    decreases s.len(),
{
    if i == s.len() - 1 {
    } else {
        let d = s.drop_last();
        assert(distinct_keys(d)) by {
            assert(forall|x: int, y: int|
                0 <= x < y < d.len() ==> d[x].0 == s[x].0 && d[y].0 == s[y].0);
        }
        lemma_entries_map_at(d, i);
        assert(s.last().0 != s[i].0);
    }
}

pub proof fn lemma_entries_map_update(s: Seq<(Seq<char>, OwnerInfo)>, i: int, v: OwnerInfo)
    requires
        distinct_keys(s),
        0 <= i < s.len(),
    ensures
        entries_map(s.update(i, (s[i].0, v))) == entries_map(s).insert(s[i].0, v),
    decreases s.len(),
{
    let t = s.update(i, (s[i].0, v));
    if i == s.len() - 1 {
        assert(t.drop_last() =~= s.drop_last());
        assert(t.last() == (s[i].0, v));
        assert(entries_map(s.drop_last()).insert(s[i].0, s[i].1).insert(s[i].0, v)
            =~= entries_map(s.drop_last()).insert(s[i].0, v));
    } else {
        let d = s.drop_last();
        assert(distinct_keys(d)) by {
            assert(forall|x: int, y: int|
                0 <= x < y < d.len() ==> d[x].0 == s[x].0 && d[y].0 == s[y].0);
        }
        lemma_entries_map_update(d, i, v);
        assert(t.drop_last() =~= d.update(i, (s[i].0, v)));
        assert(t.last() == s.last());
        assert(s.last().0 != s[i].0);
        assert(entries_map(d).insert(s[i].0, v).insert(s.last().0, s.last().1) =~= entries_map(
            d,
        ).insert(s.last().0, s.last().1).insert(s[i].0, v));
    }
}

/// In-memory cache of owner-validation results: a key-value store from
/// owner token to result, with `lookup`, `insert` and `snapshot`.
/// Insertion is last-write-wins.
pub struct GitHubCache {
    owners: Vec<(String, OwnerInfo)>,
}

impl View for GitHubCache {
    type V = Seq<(Seq<char>, OwnerInfo)>;

    closed spec fn view(&self) -> Seq<(Seq<char>, OwnerInfo)> {
        pair_views(self.owners@)
    }
}

impl GitHubCache {
    /// One entry per owner token.
    #[verifier::type_invariant]
    spec fn wf(&self) -> bool {
        distinct_keys(self@)
    }

    /// The map this cache denotes.
    pub open spec fn as_map(&self) -> Map<Seq<char>, OwnerInfo> {
        entries_map(self@)
    }

    /// An empty cache.
    pub fn new() -> (r: Self)
        ensures
            r@ == Seq::<(Seq<char>, OwnerInfo)>::empty(),
    {
        GitHubCache { owners: Vec::new() }
    }

    /// The number of cached owners.
    pub fn len(&self) -> (r: usize)
        ensures
            r == self@.len(),
    {
        self.owners.len()
    }

    fn find(&self, owner: &str) -> (r: Option<usize>)
        ensures
            match r {
                Some(i) => i < self@.len() && self@[i as int].0 == owner@,
                None => !has_key(self@, owner@),
            },
    {
        let owner_string: String = owner.to_owned();
        let n: usize = self.owners.len();
        let mut i: usize = 0;
        while i < n
            invariant
                i <= n,
                n == self.owners@.len(),
                owner_string@ == owner@,
                forall|j: int| 0 <= j < i ==> self@[j].0 != owner@,
            decreases n - i,
        {
            let p = &self.owners[i];
            if p.0 == owner_string {
                proof {
                    assert(self@[i as int].0 == owner@);
                }
                return Some(i);
            }
            i = i + 1;
        }
        None
    }

    /// Records a validation result, replacing any earlier result for
    /// the same owner: last write wins.
    pub fn insert(&mut self, owner: &str, info: OwnerInfo)
        ensures
            final(self).as_map() == old(self).as_map().insert(owner@, info),
            !has_key(old(self)@, owner@) ==> final(self)@ == old(self)@.push((owner@, info)),
            has_key(old(self)@, owner@) ==> final(self)@.len() == old(self)@.len(),
    {
        proof {
            use_type_invariant(&*self);
        }
        let found = self.find(owner);
        let mut owners: Vec<(String, OwnerInfo)> = Vec::new();
        std::mem::swap(&mut owners, &mut self.owners);
        let ghost s = pair_views(owners@);
        match found {
            Some(i) => {
                proof {
                    lemma_entries_map_update(s, i as int, info);
                }
                owners[i] = (owner.to_owned(), info);
                proof {
                    let t = pair_views(owners@);
                    assert(t =~= s.update(i as int, (owner@, info)));
                    assert forall|x: int, y: int| 0 <= x < y < t.len() implies t[x].0
                        != t[y].0 by {
                        assert(t[x].0 == s[x].0);
                        assert(t[y].0 == s[y].0);
                    }
                    assert(distinct_keys(t));
                }
            },
            None => {
                owners.push((owner.to_owned(), info));
                proof {
                    let t = pair_views(owners@);
                    assert(t.drop_last() =~= s);
                    assert(t.last() == (owner@, info));
                    assert forall|x: int, y: int| 0 <= x < y < t.len() implies t[x].0
                        != t[y].0 by {
                        assert(t[x].0 == s[x].0);
                        if y < t.len() - 1 {
                            assert(t[y].0 == s[y].0);
                        } else {
                            assert(t[y].0 == owner@);
                            if s[x].0 == owner@ {
                                assert(has_key(s, owner@));
                            }
                        }
                    }
                    assert(distinct_keys(t));
                }
            },
        }
        self.owners = owners;
    }

    /// Looks an owner up, returning the recorded result when there is
    /// one.
    pub fn lookup(&self, owner: &str) -> (r: Option<&OwnerInfo>)
        ensures
            match r {
                Some(info) => self.as_map().contains_key(owner@) && *info == self.as_map()[owner@],
                None => !self.as_map().contains_key(owner@),
            },
    {
        proof {
            use_type_invariant(&*self);
            lemma_entries_map_domain(self@, owner@);
        }
        match self.find(owner) {
            Some(i) => {
                proof {
                    lemma_entries_map_at(self@, i as int);
                }
                let p = &self.owners[i];
                Some(&p.1)
            },
            None => None,
        }
    }

    /// True when a result for this owner is cached.
    pub fn is_cached(&self, owner: &str) -> (r: bool)
        ensures
            r == self.as_map().contains_key(owner@),
    {
        proof {
            use_type_invariant(&*self);
            lemma_entries_map_domain(self@, owner@);
        }
        match self.find(owner) {
            Some(_) => true,
            None => false,
        }
    }

    /// The cached validity of an owner: `None` when not cached.
    pub fn get_cached(&self, owner: &str) -> (r: Option<bool>)
        ensures
            match r {
                Some(b) => self.as_map().contains_key(owner@) && b == (self.as_map()[owner@]
                    is User || self.as_map()[owner@] is Team),
                None => !self.as_map().contains_key(owner@),
            },
    {
        match self.lookup(owner) {
            Some(info) => Some(info.is_valid()),
            None => None,
        }
    }

    /// The cached result for an owner, copied out: `None` when not
    /// cached.
    pub fn get_owner_info(&self, owner: &str) -> (r: Option<OwnerInfo>)
        ensures
            match r {
                Some(info) => self.as_map().contains_key(owner@) && info == self.as_map()[owner@],
                None => !self.as_map().contains_key(owner@),
            },
    {
        match self.lookup(owner) {
            Some(info) => Some(clone_owner_info(info)),
            None => None,
        }
    }

    /// The owner tokens whose cached result is a validated user or
    /// team, in cache order.
    pub fn get_cached_owners(&self) -> (r: Vec<String>)
        ensures
            crate::text::str_views(r@) == valid_keys(self@),
    {
        let mut out: Vec<String> = Vec::new();
        let n: usize = self.owners.len();
        let mut i: usize = 0;
        proof {
            assert(self@.take(0) =~= Seq::<(Seq<char>, OwnerInfo)>::empty());
            assert(crate::text::str_views(out@) =~= valid_keys(self@.take(0)));
        }
        while i < n
            invariant
                i <= n,
                n == self.owners@.len(),
                n == self@.len(),
                crate::text::str_views(out@) == valid_keys(self@.take(i as int)),
            decreases n - i,
        {
            proof {
                assert(self@.take(i + 1 as int).drop_last() =~= self@.take(i as int));
                assert(self@.take(i + 1 as int).last() == self@[i as int]);
            }
            let ghost old_out = out@;
            let p = &self.owners[i];
            if p.1.is_valid() {
                out.push(p.0.clone());
                proof {
                    assert(crate::text::str_views(out@) =~= crate::text::str_views(
                        old_out,
                    ).push(self@[i as int].0));
                }
            }
            i = i + 1;
        }
        proof {
            assert(self@.take(n as int) =~= self@);
        }
        out
    }

    /// A copy of every cached entry, in cache order.
    pub fn snapshot(&self) -> (r: Vec<(String, OwnerInfo)>)
        ensures
            pair_views(r@) == self@,
    {
        let mut out: Vec<(String, OwnerInfo)> = Vec::new();
        let n: usize = self.owners.len();
        let mut i: usize = 0;
        while i < n
            invariant
                i <= n,
                n == self.owners@.len(),
                n == self@.len(),
                pair_views(out@) == self@.take(i as int),
            decreases n - i,
        {
            let p = &self.owners[i];
            let ghost old_out = out@;
            out.push((p.0.clone(), clone_owner_info(&p.1)));
            proof {
                assert(pair_views(out@) =~= pair_views(old_out).push(self@[i as int]));
                assert(self@.take(i as int).push(self@[i as int]) =~= self@.take(i + 1 as int));
            }
            i = i + 1;
        }
        proof {
            assert(self@.take(n as int) =~= self@);
        }
        out
    }

    /// Forgets every cached result.
    pub fn clear(&mut self)
        ensures
            final(self)@ == Seq::<(Seq<char>, OwnerInfo)>::empty(),
    {
        self.owners = Vec::new();
    }
}

impl Default for GitHubCache {
    /// An empty cache.
    fn default() -> (r: Self)
        ensures
            r@ == Seq::<(Seq<char>, OwnerInfo)>::empty(),
    {
        GitHubCache::new()
    }
}

/// Relies on std::time::SystemTime::now and duration_since: the
/// seconds of the Unix epoch, or zero when the clock reads earlier
/// than the epoch.
#[verifier::external_body]
fn now_unix_seconds() -> u64 {
    match std::time::SystemTime::now().duration_since(std::time::UNIX_EPOCH) {
        Ok(d) => d.as_secs(),
        Err(_) => 0,
    }
}

/// Cache of validated owners with a freshness timestamp, made to be
/// persisted by the caller.
pub struct PersistentCache {
    /// Validated owners with metadata.
    pub owners: GitHubCache,
    /// Timestamp of the last validation (Unix seconds).
    pub last_updated: u64,
}

impl PersistentCache {
    /// True when the cache is stale at time `now`: its timestamp lies
    /// more than 24 hours before `now`.
    pub fn is_stale_at(&self, now: u64) -> (r: bool)
        ensures
            r == (now - self.last_updated > 86400),
    {
        if now <= self.last_updated {
            false
        } else {
            now - self.last_updated > 86400
        }
    }

    /// True when the cache is stale as the clock reads now.  The
    /// clock is read outside the library; `is_stale_at` carries the
    /// staleness rule.
    pub fn is_stale(&self) -> bool {
        let now = now_unix_seconds();
        self.is_stale_at(now)
    }

    /// Sets the freshness timestamp to `now`, keeping the owners.
    pub fn touch_at(&mut self, now: u64)
        ensures
            final(self).last_updated == now,
            final(self).owners == old(self).owners,
    {
        self.last_updated = now;
    }

    /// Sets the freshness timestamp from the clock, which is read
    /// outside the library, keeping the owners.
    pub fn touch(&mut self)
        ensures
            final(self).owners == old(self).owners,
    {
        let now = now_unix_seconds();
        self.touch_at(now);
    }
}

impl Default for PersistentCache {
    /// An empty, epoch-old cache.
    fn default() -> (r: Self)
        ensures
            r.owners@ == Seq::<(Seq<char>, OwnerInfo)>::empty(),
            r.last_updated == 0,
    {
        PersistentCache { owners: GitHubCache::new(), last_updated: 0 }
    }
}

/// The kind of directory-service lookup an owner token calls for.
pub enum OwnerQuery {
    /// `@username`: a user lookup.
    User(String),
    /// `@org/team`: a team lookup, split at the `/`.
    Team(String, String),
    /// An email address or other token that the directory service
    /// cannot look up.
    Other,
}

/// The mathematical content of an owner-token classification.
pub enum OwnerQueryModel {
    User(Seq<char>),
    Team(Seq<char>, Seq<char>),
    Other,
}

impl View for OwnerQuery {
    type V = OwnerQueryModel;

    open spec fn view(&self) -> OwnerQueryModel {
        match self {
            OwnerQuery::User(u) => OwnerQueryModel::User(u@),
            OwnerQuery::Team(o, t) => OwnerQueryModel::Team(o@, t@),
            OwnerQuery::Other => OwnerQueryModel::Other,
        }
    }
}

/// How an owner token is looked up: `@name` is a user, `@org/team`
/// with exactly one `/` is a team, anything else (an email, a
/// malformed team) cannot be looked up.
pub open spec fn classify_owner_spec(owner: Seq<char>) -> OwnerQueryModel {
    if owner.len() == 0 || owner[0] != '@' {
        OwnerQueryModel::Other
    } else {
        let u = owner.skip(1);
        if !contains_char(u, '/') {
            OwnerQueryModel::User(u)
        } else {
            let parts = split_on(u, '/');
            if parts.len() == 2 {
                OwnerQueryModel::Team(parts[0], parts[1])
            } else {
                OwnerQueryModel::Other
            }
        }
    }
}

/// Classifies an owner token into the lookup the directory service
/// would need.
pub fn classify_owner(owner: &str) -> (r: OwnerQuery)
    ensures
        r@ == classify_owner_spec(owner@),
{
    let oc = to_chars(owner);
    if oc.len() == 0 {
        return OwnerQuery::Other;
    }
    if oc[0] != '@' {
        return OwnerQuery::Other;
    }
    let u = subvec(&oc, 1, oc.len());
    proof {
        assert(oc@.subrange(1, oc@.len() as int) =~= oc@.skip(1));
    }
    if !crate::text::vec_contains_char(&u, '/') {
        return OwnerQuery::User(chars_to_string(&u));
    }
    let parts = split_chars(&u, '/');
    if parts.len() == 2 {
        proof {
            assert(seq_views(parts@)[0] == parts@[0]@);
            assert(seq_views(parts@)[1] == parts@[1]@);
        }
        OwnerQuery::Team(chars_to_string(&parts[0]), chars_to_string(&parts[1]))
    } else {
        OwnerQuery::Other
    }
}

} // verus!
