use codeowners::blame::email_to_owner;
use codeowners::blame::parse_shortlog_entries;
use codeowners::blame::parse_usize;
use codeowners::blame::top_entry_index;

#[test]
fn test_email_to_owner_github_noreply() {
    assert_eq!(
        email_to_owner("12345+octocat@users.noreply.github.com", "Octocat"),
        "@octocat"
    );
}

#[test]
fn test_email_to_owner_github() {
    assert_eq!(email_to_owner("octocat@github.com", "Octocat"), "@octocat");
}

#[test]
fn test_email_to_owner_regular() {
    assert_eq!(
        email_to_owner("john.doe@example.com", "John Doe"),
        "@john-doe"
    );
}

#[test]
fn test_email_to_owner_noreply_without_plus() {
    assert_eq!(
        email_to_owner("someone@users.noreply.github.com", "Someone"),
        "@someone"
    );
}

#[test]
fn test_email_to_owner_drops_punctuation() {
    assert_eq!(email_to_owner("x@example.com", "Mr. O'Neil"), "@mr-oneil");
}

#[test]
fn test_email_to_owner_short_name_falls_back_to_email() {
    assert_eq!(email_to_owner("q@example.com", "Q"), "q@example.com");
    assert_eq!(email_to_owner("q@example.com", ""), "q@example.com");
}

#[test]
fn test_parse_shortlog() {
    let output = "    10\tAlice <alice@example.com>\n     5\tBob <bob@example.com>\n";
    let (contributors, total_commits) = parse_shortlog_entries(output).unwrap();

    assert_eq!(total_commits, 15);
    assert_eq!(contributors.len(), 2);
    assert_eq!(contributors[0].name, "Alice");
    assert_eq!(contributors[0].email, "alice@example.com");
    assert_eq!(contributors[0].commit_count, 10);
}

#[test]
fn test_parse_shortlog_skips_lines_without_tab() {
    let output = "noise without tab\n    3\tCarol <carol@example.com>\n";
    let (contributors, total) = parse_shortlog_entries(output).unwrap();
    assert_eq!(contributors.len(), 1);
    assert_eq!(total, 3);
    assert_eq!(contributors[0].name, "Carol");
}

#[test]
fn test_parse_shortlog_fails_on_bad_count() {
    assert!(parse_shortlog_entries("    x7\tMallory <m@example.com>\n").is_none());
    assert!(parse_shortlog_entries("").is_none());
}

#[test]
fn test_parse_shortlog_author_without_brackets() {
    let output = "    2\tanonymous\n";
    let (contributors, _) = parse_shortlog_entries(output).unwrap();
    assert_eq!(contributors[0].name, "anonymous");
    assert_eq!(contributors[0].email, "");
}

#[test]
fn test_parse_usize_values() {
    assert_eq!(parse_usize("10"), Some(10));
    assert_eq!(parse_usize("+7"), Some(7));
    assert_eq!(parse_usize("0"), Some(0));
    assert_eq!(parse_usize(""), None);
    assert_eq!(parse_usize("+"), None);
    assert_eq!(parse_usize("12a"), None);
    assert_eq!(parse_usize("-3"), None);
    assert_eq!(parse_usize("99999999999999999999999999"), None);
}

#[test]
fn test_top_entry_index_picks_first_maximum() {
    let (entries, _) = parse_shortlog_entries("  5\tA <a@x>\n  9\tB <b@x>\n  9\tC <c@x>\n").unwrap();
    assert_eq!(top_entry_index(&entries), Some(1));
    assert!(top_entry_index(&Vec::new()).is_none());
}
