use codeowners::pattern::pattern_matches;
use codeowners::pattern::pattern_subsumes;
use codeowners::pattern::CompiledPattern;

#[test]
fn test_wildcard_all() {
    assert!(pattern_matches("*", "any/file.rs"));
    assert!(pattern_matches("**", "any/nested/file.rs"));
}

#[test]
fn test_extension_pattern() {
    assert!(pattern_matches("*.rs", "src/main.rs"));
    assert!(pattern_matches("*.rs", "lib.rs"));
    assert!(!pattern_matches("*.rs", "src/main.go"));
    assert!(!pattern_matches("*.rs", "readme.md"));
}

#[test]
fn test_directory_pattern_trailing_slash() {
    assert!(pattern_matches("/src/", "src/main.rs"));
    assert!(pattern_matches("/src/", "src/lib/mod.rs"));
    assert!(pattern_matches("src/", "src/main.rs"));
    assert!(!pattern_matches("/src/", "other/file.rs"));
}

#[test]
fn test_directory_pattern_glob() {
    assert!(pattern_matches("/src/**", "src/main.rs"));
    assert!(pattern_matches("/src/**", "src/nested/deep/file.rs"));
    assert!(pattern_matches("/src/*", "src/main.rs"));
    assert!(!pattern_matches("/src/**", "other/file.rs"));
}

#[test]
fn test_exact_match() {
    assert!(pattern_matches("Makefile", "Makefile"));
    assert!(pattern_matches("/Makefile", "Makefile"));
    assert!(!pattern_matches("Makefile", "other/Makefile"));
}

#[test]
fn test_directory_prefix() {
    assert!(pattern_matches("src", "src/main.rs"));
    assert!(pattern_matches("src", "src/nested/file.rs"));
    assert!(!pattern_matches("src", "other/src/file.rs"));
}

#[test]
fn test_leading_slash_stripped() {
    assert!(pattern_matches("/src/main.rs", "src/main.rs"));
    assert!(pattern_matches("src/main.rs", "src/main.rs"));
}

#[test]
fn test_nested_directory() {
    assert!(pattern_matches("src/lib/", "src/lib/mod.rs"));
    assert!(pattern_matches("/src/lib/", "src/lib/nested.rs"));
    assert!(!pattern_matches("src/lib/", "src/other/file.rs"));
}

#[test]
fn test_double_star_prefix() {
    // **/foo.txt matches foo.txt in any directory
    assert!(pattern_matches(
        "**/mirrord_config.json",
        "src/mirrord_config.json"
    ));
    assert!(pattern_matches(
        "**/mirrord_config.json",
        "mirrord_config.json"
    ));
    assert!(pattern_matches(
        "**/mirrord_config.json",
        "a/b/c/mirrord_config.json"
    ));
    assert!(!pattern_matches("**/mirrord_config.json", "src/other.json"));

    // Leading slash variant
    assert!(pattern_matches(
        "/**/mirrord_config.json",
        "src/mirrord_config.json"
    ));
    assert!(pattern_matches("/**/foo.txt", "foo.txt"));
    assert!(pattern_matches("/**/foo.txt", "dir/foo.txt"));
}

#[test]
fn test_double_star_middle() {
    // src/**/test.rs matches src/test.rs, src/foo/test.rs, etc.
    assert!(pattern_matches("src/**/test.rs", "src/test.rs"));
    assert!(pattern_matches("src/**/test.rs", "src/foo/test.rs"));
    assert!(pattern_matches("src/**/test.rs", "src/foo/bar/test.rs"));
    assert!(!pattern_matches("src/**/test.rs", "other/test.rs"));
    assert!(!pattern_matches("src/**/test.rs", "src/foo/other.rs"));
}

#[test]
fn test_single_star_in_path() {
    // deployment/*/deploy matches deployment/foo/deploy
    assert!(pattern_matches(
        "deployment/*/deploy/apps/staging/Chart.yaml",
        "deployment/analytics/deploy/apps/staging/Chart.yaml"
    ));
    assert!(pattern_matches(
        "deployment/*/deploy/**",
        "deployment/foo/deploy/bar/baz.yaml"
    ));
    assert!(!pattern_matches(
        "deployment/*/deploy/**",
        "other/foo/deploy/bar.yaml"
    ));
}

#[test]
fn test_star_in_filename() {
    // *crowdin* matches files with crowdin in the name; a * spans one
    // or more characters, so a name that begins with "crowdin" leaves
    // nothing for the leading star
    assert!(!pattern_matches(
        ".github/workflows/*crowdin*",
        ".github/workflows/crowdin-download.yaml"
    ));
    assert!(pattern_matches(
        ".github/workflows/*crowdin*",
        ".github/workflows/upload-crowdin-files.yaml"
    ));
    assert!(!pattern_matches(
        ".github/workflows/*crowdin*",
        ".github/workflows/deploy.yaml"
    ));

    // create_service*.ex
    assert!(pattern_matches(
        "src/apps/platform_rpc/lib/platform_rpc/grpc/action/create_service*.ex",
        "src/apps/platform_rpc/lib/platform_rpc/grpc/action/create_service_foo.ex"
    ));
    assert!(pattern_matches(
        "lib/create_service*.ex",
        "lib/create_service_provider.ex"
    ));
}

#[test]
fn test_star_prefix_suffix() {
    // appointment_review* matches appointment_review.ex, appointment_review_test.ex
    assert!(pattern_matches(
        "src/apps/platform/lib/schemas/appointment_review*",
        "src/apps/platform/lib/schemas/appointment_review.ex"
    ));
    assert!(pattern_matches(
        "src/apps/platform/lib/schemas/appointment_review*",
        "src/apps/platform/lib/schemas/appointment_review_test.ex"
    ));
    assert!(!pattern_matches(
        "src/apps/platform/lib/schemas/appointment_review*",
        "src/apps/platform/lib/schemas/other.ex"
    ));
}

#[test]
fn test_subsumes_identical() {
    assert!(pattern_subsumes("*.rs", "*.rs"));
    assert!(pattern_subsumes("/src/", "/src/"));
    assert!(pattern_subsumes("Makefile", "Makefile"));
}

#[test]
fn test_subsumes_wildcard() {
    // * subsumes everything
    assert!(pattern_subsumes("*.rs", "*"));
    assert!(pattern_subsumes("*.go", "*"));
    assert!(pattern_subsumes("/src/", "*"));
    assert!(pattern_subsumes("Makefile", "*"));
    assert!(pattern_subsumes("src/main.rs", "*"));

    // ** also subsumes everything
    assert!(pattern_subsumes("*.rs", "**"));
    assert!(pattern_subsumes("/src/lib/", "**"));
}

#[test]
fn test_subsumes_extension() {
    // *.rs.bak subsumed by *.bak
    assert!(pattern_subsumes("*.rs.bak", "*.bak"));
    // but not the other way
    assert!(!pattern_subsumes("*.bak", "*.rs.bak"));
    // *.rs not subsumed by *.go
    assert!(!pattern_subsumes("*.rs", "*.go"));
}

#[test]
fn test_subsumes_directory() {
    // /src/lib/ subsumed by /src/
    assert!(pattern_subsumes("/src/lib/", "/src/"));
    assert!(pattern_subsumes("src/lib/", "src/"));
    // /src/** also subsumes /src/lib/
    assert!(pattern_subsumes("/src/lib/", "/src/**"));
    // but /src/ not subsumed by /src/lib/
    assert!(!pattern_subsumes("/src/", "/src/lib/"));
}

#[test]
fn test_subsumes_file_in_dir() {
    // src/main.rs subsumed by src/
    assert!(pattern_subsumes("src/main.rs", "src/"));
    assert!(pattern_subsumes("src/main.rs", "src/**"));
    // but not by a different dir
    assert!(!pattern_subsumes("src/main.rs", "lib/"));
}

#[test]
fn test_not_subsumed() {
    // Different extensions
    assert!(!pattern_subsumes("*.rs", "*.go"));
    // Different directories
    assert!(!pattern_subsumes("/src/", "/lib/"));
    // Wildcard doesn't subsume specific
    assert!(!pattern_subsumes("*", "*.rs"));
}

#[test]
fn test_compiled_pattern_matches() {
    let cp = CompiledPattern::new("*.rs");
    assert!(cp.matches("deep/in/tree/lib.rs"));
    assert!(!cp.matches("deep/in/tree/lib.go"));
    let dir = CompiledPattern::new("docs/");
    assert!(dir.matches("docs/readme.md"));
    assert!(dir.matches("docs"));
    assert!(!dir.matches("docs2/readme.md"));
}

#[test]
fn test_compile_is_deterministic() {
    let paths = [
        "src/main.rs",
        "docs/readme.md",
        "a/b/c.txt",
        "Makefile",
        "srcfoo/file.rs",
    ];
    for raw in ["*.rs", "src/", "/docs/**", "Makefile", "*", "a/*/c.txt"] {
        let c1 = CompiledPattern::new(raw);
        let c2 = CompiledPattern::new(raw);
        for p in paths {
            assert_eq!(c1.matches(p), c2.matches(p));
            assert_eq!(c1.matches(p), pattern_matches(raw, p));
        }
    }
}

#[test]
fn test_segment_boundary_not_string_prefix() {
    // src/ must not match srcfoo/file.rs
    assert!(!pattern_matches("src/", "srcfoo/file.rs"));
    assert!(!pattern_matches("src", "srcfoo/file.rs"));
    assert!(!pattern_matches("/docs/", "docsite/index.md"));
}

#[test]
fn test_star_spans_one_or_more_characters() {
    assert!(pattern_matches("*.rs", "a.rs"));
    assert!(!pattern_matches("*.rs", ".rs"));
    assert!(pattern_matches("a*", "ab"));
    assert!(!pattern_matches("a*", "a"));
}

#[test]
fn test_double_star_spans_zero_segments() {
    assert!(pattern_matches("src/**", "src"));
    assert!(pattern_matches("src/**/test.rs", "src/test.rs"));
}
