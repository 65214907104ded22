use codeowners::file_cache::FileCache;
use codeowners::files::collect_file_filter;
use codeowners::parser::parse_codeowners_file_with_positions;
use codeowners::parser::CodeownersLine;
use codeowners::parser::ParsedLine;

fn test_files() -> Vec<String> {
    vec![
        "src/main.rs".to_string(),
        "src/lib.rs".to_string(),
        "docs/readme.md".to_string(),
        "Cargo.toml".to_string(),
    ]
}

#[test]
fn test_file_cache_creation() {
    let cache = FileCache::from_files(test_files());
    assert_eq!(cache.len(), 4);
}

#[test]
fn test_count_matches() {
    let cache = FileCache::from_files(test_files());
    assert_eq!(cache.count_matches("*.rs"), 2);
    assert_eq!(cache.count_matches("*.md"), 1);
    assert_eq!(cache.count_matches("src/**"), 2);
    assert_eq!(cache.count_matches("*"), 4);
}

#[test]
fn test_get_unowned_files() {
    let cache = FileCache::from_files(test_files());

    // Rule that covers only Rust files
    let rules = vec![ParsedLine {
        line_number: 0,
        content: CodeownersLine::Rule {
            pattern: "*.rs".to_string(),
            owners: vec!["@owner".to_string()],
        },
        pattern_start: 0,
        pattern_end: 4,
        owners_start: 5,
    }];

    let unowned = cache.get_unowned_files(&rules);
    assert_eq!(unowned.len(), 2); // docs/readme.md and Cargo.toml
    assert_eq!(unowned[0], "docs/readme.md");
    assert_eq!(unowned[1], "Cargo.toml");
}

#[test]
fn test_all_files_owned() {
    let cache = FileCache::from_files(test_files());

    // Catch-all rule
    let rules = vec![ParsedLine {
        line_number: 0,
        content: CodeownersLine::Rule {
            pattern: "*".to_string(),
            owners: vec!["@owner".to_string()],
        },
        pattern_start: 0,
        pattern_end: 1,
        owners_start: 2,
    }];

    let unowned = cache.get_unowned_files(&rules);
    assert!(unowned.is_empty());
}

#[test]
fn test_file_cache_deduplicates() {
    let cache = FileCache::from_files(vec![
        "a.rs".to_string(),
        "b.rs".to_string(),
        "a.rs".to_string(),
    ]);
    assert_eq!(cache.len(), 2);
    assert_eq!(cache.get_matches("*.rs"), vec!["a.rs".to_string(), "b.rs".to_string()]);
}

#[test]
fn test_coverage_identity() {
    let cache = FileCache::from_files(test_files());
    let rules = parse_codeowners_file_with_positions("*.rs @rust\n");
    let stats = cache.coverage(&rules);
    assert_eq!(stats.owned + stats.unowned, stats.total);
    assert_eq!(stats.total, 4);
    assert_eq!(stats.owned, 2);
    assert_eq!(stats.unowned, 2);
}

#[test]
fn test_coverage_percentage_seven_of_ten() {
    // Ten files, rules covering exactly seven: 70.0%
    let files: Vec<String> = vec![
        "a/1.rs", "a/2.rs", "a/3.rs", "a/4.rs", "a/5.rs", "a/6.rs", "a/7.rs", "b/1.md", "b/2.md",
        "b/3.md",
    ]
    .into_iter()
    .map(String::from)
    .collect();
    let cache = FileCache::from_files(files);
    let rules = parse_codeowners_file_with_positions("a/ @team-a\n");
    let stats = cache.coverage(&rules);
    assert_eq!(stats.total, 10);
    assert_eq!(stats.owned, 7);
    assert_eq!(stats.percent_tenths(), 700); // 70.0%
}

#[test]
fn test_coverage_empty_index_is_full() {
    let cache = FileCache::from_files(Vec::new());
    let rules = parse_codeowners_file_with_positions("");
    let stats = cache.coverage(&rules);
    assert_eq!(stats.total, 0);
    assert_eq!(stats.percent_tenths(), 1000); // 100.0%
}

#[test]
fn test_get_matches_lists_matching_files() {
    let cache = FileCache::from_files(test_files());
    assert_eq!(
        cache.get_matches("src/"),
        vec!["src/main.rs".to_string(), "src/lib.rs".to_string()]
    );
    assert!(cache.get_matches("missing/").is_empty());
}

#[test]
fn test_collect_file_filter_none_when_empty() {
    assert!(collect_file_filter(None, Vec::new()).is_none());
    assert!(collect_file_filter(Some(Vec::new()), vec!["   ".to_string(), "".to_string()])
        .is_none());
}

#[test]
fn test_collect_file_filter_trims_and_dedupes() {
    let filter = collect_file_filter(
        Some(vec!["from_args.rs".to_string()]),
        vec![
            "  src/foo.rs  ".to_string(),
            "".to_string(),
            "src/foo.rs".to_string(),
            "from_args.rs".to_string(),
        ],
    )
    .unwrap();
    assert_eq!(
        filter,
        vec!["from_args.rs".to_string(), "src/foo.rs".to_string()]
    );
}
