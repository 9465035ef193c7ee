use route_codegen::rules::{build_scan_rules, file_stem, has_rs_extension, FileDecision};

fn rules_for(patterns: &[&str]) -> route_codegen::rules::ScanRules {
    let ps: Vec<String> = patterns.iter().map(|s| s.to_string()).collect();
    build_scan_rules(&ps).expect("patterns should be valid globs")
}

#[test]
fn glob_filtering_includes_and_excludes() {
    let rules = rules_for(&["src/**/*.rs", "!src/generated/**"]);
    assert!(rules.should_include("src/handler/nation.rs"));
    assert!(!rules.should_include("src/generated/x.rs"));
}

#[test]
fn empty_pattern_list_includes_every_source_file() {
    let rules = rules_for(&[]);
    assert!(rules.should_include("src/anything/at/all.rs"));
    assert!(rules.should_include("deep/nested/file.rs"));
}

#[test]
fn a_list_of_only_exclusions_admits_nothing() {
    let rules = rules_for(&["!src/generated/**"]);
    assert!(!rules.should_include("src/handler/nation.rs"));
    assert!(!rules.should_include("src/generated/x.rs"));
}

#[test]
fn generator_sources_are_always_excluded() {
    let rules = rules_for(&["**/*.rs"]);
    assert!(!rules.should_include("route_codegen/src/lib.rs"));
    assert!(!rules.should_include("route_codegen/src/nested/deep.rs"));
}

#[test]
fn invalid_pattern_is_reported() {
    let ps: Vec<String> = vec!["src/[".to_string()];
    let r = build_scan_rules(&ps);
    assert_eq!(r.err(), Some("src/[".to_string()));
}

#[test]
fn invalid_excluded_pattern_is_reported_with_its_marker() {
    let ps: Vec<String> = vec!["ok/**".to_string(), "!bad/[".to_string()];
    let r = build_scan_rules(&ps);
    assert_eq!(r.err(), Some("!bad/[".to_string()));
}

#[test]
fn classification_skips_non_source_files() {
    let rules = rules_for(&[]);
    assert_eq!(rules.classify("src/readme.txt", "readme.txt", 10), FileDecision::Skip);
    assert_eq!(rules.classify("src/x.rs", "x.rs", 10), FileDecision::Scan);
}

#[test]
fn classification_skips_the_bootstrap_entry_file() {
    let rules = rules_for(&[]);
    assert_eq!(rules.classify("src/main.rs", "main.rs", 10), FileDecision::Skip);
}

#[test]
fn classification_skips_excluded_files() {
    let rules = rules_for(&["src/a/**"]);
    assert_eq!(rules.classify("src/b/x.rs", "x.rs", 10), FileDecision::Skip);
    assert_eq!(rules.classify("src/a/x.rs", "x.rs", 10), FileDecision::Scan);
}

#[test]
fn oversized_candidate_is_reported_not_scanned() {
    let rules = rules_for(&[]);
    let eleven_mb: u64 = 11 * 1024 * 1024;
    assert_eq!(rules.classify("src/big.rs", "big.rs", eleven_mb), FileDecision::TooLarge);
    let ten_mb: u64 = 10 * 1024 * 1024;
    assert_eq!(rules.classify("src/edge.rs", "edge.rs", ten_mb), FileDecision::Scan);
    assert_eq!(rules.classify("src/over.rs", "over.rs", ten_mb + 1), FileDecision::TooLarge);
}

#[test]
fn extension_and_stem_handling() {
    assert!(has_rs_extension("nation.rs"));
    assert!(!has_rs_extension("nation.txt"));
    assert!(!has_rs_extension(".rs"));
    assert!(!has_rs_extension("rs"));
    assert_eq!(file_stem("nation.rs"), "nation");
    assert_eq!(file_stem("mod.rs"), "mod");
    assert_eq!(file_stem("noext"), "noext");
}
