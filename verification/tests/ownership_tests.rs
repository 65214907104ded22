use codeowners::ownership::check_file_ownership;
use codeowners::ownership::find_dead_rules;
use codeowners::ownership::resolve;
use codeowners::ownership::rules_match_path;
use codeowners::parser::parse_codeowners_file_with_positions;
use codeowners::parser::CodeownersLine;

#[test]
fn test_parse_rule_lines_and_positions() {
    let text = "*.rs @rust-team\n# a comment\n\n  docs/ @docs @writers\nlonely-pattern\n";
    let rules = parse_codeowners_file_with_positions(text);
    assert_eq!(rules.len(), 3);

    assert_eq!(rules[0].line_number, 0);
    assert_eq!(rules[0].pattern_start, 0);
    assert_eq!(rules[0].pattern_end, 4);
    assert_eq!(rules[0].owners_start, 5);
    match &rules[0].content {
        CodeownersLine::Rule { pattern, owners } => {
            assert_eq!(pattern, "*.rs");
            assert_eq!(owners, &vec!["@rust-team".to_string()]);
        }
        CodeownersLine::Comment => panic!("expected a rule"),
    }

    assert_eq!(rules[1].line_number, 3);
    assert_eq!(rules[1].pattern_start, 2);
    assert_eq!(rules[1].pattern_end, 7);
    assert_eq!(rules[1].owners_start, 8);
    match &rules[1].content {
        CodeownersLine::Rule { pattern, owners } => {
            assert_eq!(pattern, "docs/");
            assert_eq!(
                owners,
                &vec!["@docs".to_string(), "@writers".to_string()]
            );
        }
        CodeownersLine::Comment => panic!("expected a rule"),
    }

    // a pattern with no owner tokens is kept, explicitly unowned
    assert_eq!(rules[2].line_number, 4);
    match &rules[2].content {
        CodeownersLine::Rule { pattern, owners } => {
            assert_eq!(pattern, "lonely-pattern");
            assert!(owners.is_empty());
        }
        CodeownersLine::Comment => panic!("expected a rule"),
    }
}

#[test]
fn test_parse_skips_blank_and_comment_lines() {
    let rules = parse_codeowners_file_with_positions("   \n\t\n# only comments\n   # indented\n");
    assert!(rules.is_empty());
}

#[test]
fn test_resolve_last_match_wins() {
    // Scenario: an earlier glob and a later directory rule both match;
    // the later rule wins.
    let content = "*.rs @rust-team\nsrc/legacy/ @legacy-team\n";
    let result = check_file_ownership(content, "src/legacy/old.rs").unwrap();
    assert_eq!(result.pattern, "src/legacy/");
    assert_eq!(result.line_number, 1);
    assert_eq!(result.owners, vec!["@legacy-team".to_string()]);
}

#[test]
fn test_resolve_no_match_on_partial_segment() {
    // Scenario: the segment-boundary rule prevents a partial-name
    // collision.
    let content = "/docs/ @docs-team\n";
    assert!(check_file_ownership(content, "documentation/readme.md").is_none());
}

#[test]
fn test_resolve_returns_last_matching_index() {
    let rules = parse_codeowners_file_with_positions("* @all\n*.rs @rust\ndocs/ @docs\n");
    assert_eq!(resolve(&rules, "src/main.rs"), Some(1));
    assert_eq!(resolve(&rules, "docs/readme.md"), Some(2));
    assert_eq!(resolve(&rules, "justfile"), Some(0));
    let none = parse_codeowners_file_with_positions("docs/ @docs\n");
    assert_eq!(resolve(&none, "src/main.rs"), None);
}

#[test]
fn test_empty_owner_rule_still_owns() {
    let rules = parse_codeowners_file_with_positions("*.gen\n");
    assert!(rules_match_path(&rules, "api/schema.gen"));
    let r = check_file_ownership("*.gen\n", "api/schema.gen").unwrap();
    assert!(r.owners.is_empty());
}

#[test]
fn test_dead_rule_detection_order() {
    // Scenario: *.rs.bak is subsumed by *.bak, but only the order in
    // the file decides deadness.
    let forward = parse_codeowners_file_with_positions("*.bak @a\n*.rs.bak @a\n");
    assert_eq!(find_dead_rules(&forward), vec![false, false]);

    let reversed = parse_codeowners_file_with_positions("*.rs.bak @a\n*.bak @a\n");
    assert_eq!(find_dead_rules(&reversed), vec![true, false]);
}

#[test]
fn test_dead_rule_by_directory() {
    let rules = parse_codeowners_file_with_positions("src/lib/ @a\nsrc/ @b\nother/ @c\n");
    assert_eq!(find_dead_rules(&rules), vec![true, false, false]);
}

#[test]
fn test_check_file_ownership_owners_in_order() {
    let content = "tools/ @one @two @one\n";
    let r = check_file_ownership(content, "tools/build.sh").unwrap();
    assert_eq!(
        r.owners,
        vec!["@one".to_string(), "@two".to_string(), "@one".to_string()]
    );
    assert_eq!(r.line_number, 0);
}
