use codeowners::github::classify_owner;
use codeowners::github::GitHubCache;
use codeowners::github::OwnerInfo;
use codeowners::github::OwnerQuery;
use codeowners::github::PersistentCache;
use codeowners::github::TeamInfo;
use codeowners::github::UserInfo;

fn sample_user(login: &str) -> OwnerInfo {
    OwnerInfo::User(UserInfo {
        login: login.to_string(),
        name: Some("Test User".to_string()),
        html_url: format!("https://github.com/{}", login),
        avatar_url: None,
        bio: None,
        company: None,
    })
}

#[test]
fn test_cache_operations() {
    let mut cache = GitHubCache::new();

    // Initially not cached
    assert!(!cache.is_cached("@user"));

    cache.insert("@user", sample_user("user"));

    // Now cached
    assert!(cache.is_cached("@user"));
    assert_eq!(cache.get_cached("@user"), Some(true));

    // Check owner info
    let info = cache.get_owner_info("@user");
    assert!(matches!(info, Some(OwnerInfo::User(_))));

    // Clear cache
    cache.clear();
    assert!(!cache.is_cached("@user"));
}

#[test]
fn test_owner_info_validity() {
    let user = OwnerInfo::User(UserInfo {
        login: "test".to_string(),
        name: None,
        html_url: "https://github.com/test".to_string(),
        avatar_url: None,
        bio: None,
        company: None,
    });
    assert!(user.is_valid());
    assert!(!user.is_invalid());

    let team = OwnerInfo::Team(TeamInfo {
        slug: "team".to_string(),
        name: "Team".to_string(),
        org: "org".to_string(),
        description: None,
        html_url: "https://github.com/orgs/org/teams/team".to_string(),
        members_count: None,
        repos_count: None,
    });
    assert!(team.is_valid());
    assert!(!team.is_invalid());

    let invalid = OwnerInfo::Invalid;
    assert!(!invalid.is_valid());
    assert!(invalid.is_invalid());

    let unknown = OwnerInfo::Unknown;
    assert!(!unknown.is_valid());
    assert!(!unknown.is_invalid());
}

#[test]
fn test_cache_last_write_wins() {
    let mut cache = GitHubCache::new();
    cache.insert("@user", OwnerInfo::Unknown);
    assert_eq!(cache.get_cached("@user"), Some(false));
    cache.insert("@user", sample_user("user"));
    assert_eq!(cache.get_cached("@user"), Some(true));
    assert_eq!(cache.len(), 1);
}

#[test]
fn test_cached_owner_listing_keeps_valid_only() {
    let mut cache = GitHubCache::new();
    cache.insert("@alice", sample_user("alice"));
    cache.insert("@ghost", OwnerInfo::Invalid);
    cache.insert("@carol", sample_user("carol"));
    assert_eq!(
        cache.get_cached_owners(),
        vec!["@alice".to_string(), "@carol".to_string()]
    );
    let snapshot = cache.snapshot();
    assert_eq!(snapshot.len(), 3);
    assert_eq!(snapshot[1].0, "@ghost");
    assert!(matches!(snapshot[1].1, OwnerInfo::Invalid));
}

#[test]
fn test_classify_owner_kinds() {
    assert!(matches!(classify_owner("@octocat"), OwnerQuery::User(u) if u == "octocat"));
    assert!(
        matches!(classify_owner("@acme/platform"), OwnerQuery::Team(o, t) if o == "acme" && t == "platform")
    );
    assert!(matches!(classify_owner("dev@example.com"), OwnerQuery::Other));
    assert!(matches!(classify_owner("@a/b/c"), OwnerQuery::Other));
    assert!(matches!(classify_owner(""), OwnerQuery::Other));
}

#[test]
fn test_persistent_cache_staleness() {
    let mut cache = PersistentCache::default();
    assert_eq!(cache.last_updated, 0);
    // an epoch-old cache is stale a day plus a second later
    assert!(cache.is_stale_at(86401));
    assert!(!cache.is_stale_at(86400));
    cache.touch_at(1_000_000);
    assert_eq!(cache.last_updated, 1_000_000);
    assert!(!cache.is_stale_at(1_000_000 + 86400));
    assert!(cache.is_stale_at(1_000_000 + 86401));
    // a timestamp from the future is not stale
    assert!(!cache.is_stale_at(999_999));
}
