use route_codegen::manifest::workspace_members;
use route_codegen::pipeline::{
    member_qualifier, plan_projects, run_generation, FileInput, GenError, MemberInput,
    ProjectInput, ScanWarning,
};

fn file(rel: &str, segs: &[&str], size: u64, content: Option<&str>) -> FileInput {
    FileInput {
        rel_path: rel.to_string(),
        src_segments: segs.iter().map(|s| s.to_string()).collect(),
        size,
        content: content.map(|s| s.to_string()),
    }
}

fn entry_main() -> FileInput {
    file("src/main.rs", &["main.rs"], 100, None)
}

fn one_project(files: Vec<FileInput>) -> Vec<ProjectInput> {
    vec![ProjectInput { qualifier: "crate".to_string(), files }]
}

fn no_patterns() -> Vec<String> {
    Vec::new()
}

const AGENCY_SRC: &str =
    "pub mod agency {\n    #[get(\"/agency/{id}\")]\n    pub async fn get_agency() {}\n}\n";

#[test]
fn whole_run_produces_registration_text() {
    let files = vec![
        entry_main(),
        file("src/handler/agency.rs", &["handler", "agency.rs"], 200, Some(AGENCY_SRC)),
    ];
    let out = run_generation(&one_project(files), &no_patterns(), false, false).unwrap();
    assert!(out.warnings.is_empty());
    assert_eq!(out.routes.len(), 1);
    assert_eq!(out.routes[0].method, "GET");
    assert_eq!(out.routes[0].path, "/handler/agency/agency/agency/{id}");
    assert!(out.text.contains("pub fn register_handler_agency_agency"));
    assert!(out.text.contains("pub fn configure(cfg: &mut actix_web::web::ServiceConfig)"));
    assert!(syn::parse_file(&out.text).is_ok());
}

#[test]
fn two_runs_on_the_same_tree_are_byte_identical() {
    let make = || {
        vec![
            entry_main(),
            file("src/handler/agency.rs", &["handler", "agency.rs"], 200, Some(AGENCY_SRC)),
            file(
                "src/handler/nation.rs",
                &["handler", "nation.rs"],
                150,
                Some("#[get(\"/\")]\npub async fn hello() {}\n"),
            ),
        ]
    };
    let a = run_generation(&one_project(make()), &no_patterns(), false, false).unwrap();
    let b = run_generation(&one_project(make()), &no_patterns(), false, false).unwrap();
    assert_eq!(a.text, b.text);
}

#[test]
fn file_order_does_not_change_the_text() {
    let f1 = || file("src/handler/agency.rs", &["handler", "agency.rs"], 200, Some(AGENCY_SRC));
    let f2 = || {
        file(
            "src/handler/nation.rs",
            &["handler", "nation.rs"],
            150,
            Some("#[get(\"/\")]\npub async fn hello() {}\n"),
        )
    };
    let a = run_generation(
        &one_project(vec![entry_main(), f1(), f2()]),
        &no_patterns(),
        false,
        false,
    )
    .unwrap();
    let b = run_generation(
        &one_project(vec![f2(), entry_main(), f1()]),
        &no_patterns(),
        false,
        false,
    )
    .unwrap();
    assert_eq!(a.text, b.text);
    assert_eq!(a.routes.len(), b.routes.len());
}

#[test]
fn oversized_candidate_is_never_parsed_and_warns() {
    let eleven_mb: u64 = 11 * 1024 * 1024;
    // deliberately unparsable content: if it were handed to the parser the
    // run could not succeed
    let files = vec![
        entry_main(),
        file("src/big.rs", &["big.rs"], eleven_mb, Some("this is not valid source !!!")),
    ];
    let out = run_generation(&one_project(files), &no_patterns(), false, false).unwrap();
    assert_eq!(out.warnings.len(), 1);
    assert!(matches!(&out.warnings[0], ScanWarning::TooLarge(p) if p == "src/big.rs"));
    assert!(out.routes.is_empty());
}

#[test]
fn oversized_candidate_is_fatal_under_the_strict_policy() {
    let eleven_mb: u64 = 11 * 1024 * 1024;
    let files = vec![entry_main(), file("src/big.rs", &["big.rs"], eleven_mb, None)];
    let r = run_generation(&one_project(files), &no_patterns(), true, false);
    assert!(matches!(r, Err(GenError::FileTooLarge(p)) if p == "src/big.rs"));
}

#[test]
fn oversized_entry_file_is_fatal_even_when_lenient() {
    let eleven_mb: u64 = 11 * 1024 * 1024;
    let files = vec![file("src/lib.rs", &["lib.rs"], eleven_mb, None)];
    let r = run_generation(&one_project(files), &no_patterns(), false, false);
    assert!(matches!(r, Err(GenError::FileTooLarge(p)) if p == "src/lib.rs"));
}

#[test]
fn parse_failure_warns_and_drops_the_file_when_lenient() {
    let files = vec![
        entry_main(),
        file("src/bad.rs", &["bad.rs"], 50, Some("fn !!!")),
        file("src/handler/agency.rs", &["handler", "agency.rs"], 200, Some(AGENCY_SRC)),
    ];
    let out = run_generation(&one_project(files), &no_patterns(), false, false).unwrap();
    assert_eq!(out.warnings.len(), 1);
    assert!(matches!(&out.warnings[0], ScanWarning::ParseFailed(p) if p == "src/bad.rs"));
    assert_eq!(out.routes.len(), 1);
}

#[test]
fn parse_failure_is_fatal_under_the_strict_policy() {
    let files = vec![entry_main(), file("src/bad.rs", &["bad.rs"], 50, Some("fn !!!"))];
    let r = run_generation(&one_project(files), &no_patterns(), true, false);
    assert!(matches!(r, Err(GenError::ParseFailed(p)) if p == "src/bad.rs"));
}

#[test]
fn parse_failure_on_the_entry_file_is_fatal() {
    let files = vec![file("src/lib.rs", &["lib.rs"], 50, Some("fn !!!"))];
    let r = run_generation(&one_project(files), &no_patterns(), false, false);
    assert!(matches!(r, Err(GenError::ParseFailed(p)) if p == "src/lib.rs"));
}

#[test]
fn entry_lib_is_parsed_when_no_bootstrap_file_exists() {
    let files = vec![
        file("src/lib.rs", &["lib.rs"], 60, Some("#[put(\"/lib/{id}\")]\npub async fn lib_fn() {}\n")),
    ];
    let out = run_generation(&one_project(files), &no_patterns(), false, false).unwrap();
    assert_eq!(out.routes.len(), 1);
    assert_eq!(out.routes[0].method, "PUT");
}

#[test]
fn unreadable_candidate_warns_when_lenient() {
    let files = vec![entry_main(), file("src/gone.rs", &["gone.rs"], 50, None)];
    let out = run_generation(&one_project(files), &no_patterns(), false, false).unwrap();
    assert_eq!(out.warnings.len(), 1);
    assert!(matches!(&out.warnings[0], ScanWarning::ReadFailed(p) if p == "src/gone.rs"));
}

#[test]
fn project_without_entry_file_is_not_scanned() {
    let files = vec![file("src/handler/agency.rs", &["handler", "agency.rs"], 200, Some(AGENCY_SRC))];
    let out = run_generation(&one_project(files), &no_patterns(), false, false).unwrap();
    assert!(out.routes.is_empty());
    assert!(out.warnings.is_empty());
}

#[test]
fn invalid_pattern_aborts_the_run() {
    let files = vec![entry_main()];
    let patterns: Vec<String> = vec!["src/[".to_string()];
    let r = run_generation(&one_project(files), &patterns, false, false);
    assert!(matches!(r, Err(GenError::Pattern(p)) if p == "src/["));
}

#[test]
fn patterns_filter_what_is_scanned() {
    let files = vec![
        entry_main(),
        file("src/handler/agency.rs", &["handler", "agency.rs"], 200, Some(AGENCY_SRC)),
        file(
            "src/other/extra.rs",
            &["other", "extra.rs"],
            100,
            Some("#[get(\"/x\")]\npub async fn x_fn() {}\n"),
        ),
    ];
    let patterns: Vec<String> = vec!["src/handler/**".to_string()];
    let out = run_generation(&one_project(files), &patterns, false, false).unwrap();
    assert_eq!(out.routes.len(), 1);
    assert!(out.routes[0].path.starts_with("/handler/agency"));
}

#[test]
fn workspace_members_and_plans_come_from_the_manifests() {
    let root = "[package]\nname = \"web_demo\"\n\n[workspace]\nmembers = [\"api_tool\"]\n";
    assert_eq!(workspace_members(root), Some(vec!["api_tool".to_string()]));
    let members = vec![MemberInput {
        dir_exists: true,
        manifest_text: Some("[package]\nname = \"api_tool\"\n".to_string()),
    }];
    let quals = plan_projects(&Some(root.to_string()), &members).unwrap();
    assert_eq!(quals, vec!["crate".to_string(), "api_tool".to_string()]);
}

#[test]
fn missing_root_manifest_is_fatal() {
    let r = plan_projects(&None, &Vec::new());
    assert!(matches!(r, Err(GenError::Manifest)));
}

#[test]
fn unparsable_root_manifest_is_fatal() {
    let r = plan_projects(&Some("not = = toml".to_string()), &Vec::new());
    assert!(matches!(r, Err(GenError::Manifest)));
}

#[test]
fn unusable_members_are_skipped_without_error() {
    let root = "[package]\nname = \"w\"\n";
    let members = vec![
        MemberInput { dir_exists: false, manifest_text: None },
        MemberInput { dir_exists: true, manifest_text: None },
        MemberInput { dir_exists: true, manifest_text: Some("no name here = 1".to_string()) },
        MemberInput {
            dir_exists: true,
            manifest_text: Some("[package]\nname = \"good\"\n".to_string()),
        },
    ];
    let quals = plan_projects(&Some(root.to_string()), &members).unwrap();
    assert_eq!(quals, vec!["crate".to_string(), "good".to_string()]);
}

#[test]
fn member_qualifier_reads_the_package_name() {
    let m = MemberInput {
        dir_exists: true,
        manifest_text: Some("[package]\nname = \"api_tool\"\n".to_string()),
    };
    assert_eq!(member_qualifier(&m), Some("api_tool".to_string()));
    let gone = MemberInput { dir_exists: false, manifest_text: None };
    assert_eq!(member_qualifier(&gone), None);
}

#[test]
fn two_projects_contribute_their_own_qualifiers() {
    let root_files = vec![
        entry_main(),
        file("src/api/user.rs", &["api", "user.rs"], 90, Some(
            "#[get(\"/userInfo/{id}\")]\npub async fn get_user_info() {}\n",
        )),
    ];
    let member_files = vec![
        file("api_tool/src/lib.rs", &["lib.rs"], 40, Some("pub mod api_tool;\n")),
        file(
            "api_tool/src/api_tool/tool.rs",
            &["api_tool", "tool.rs"],
            120,
            Some("#[get(\"/toolInfo/{id}\")]\npub async fn get_tool_info() {}\n"),
        ),
    ];
    let projects = vec![
        ProjectInput { qualifier: "crate".to_string(), files: root_files },
        ProjectInput { qualifier: "api_tool".to_string(), files: member_files },
    ];
    let out = run_generation(&projects, &no_patterns(), false, false).unwrap();
    assert_eq!(out.routes.len(), 2);
    let paths: Vec<&str> = out.routes.iter().map(|r| r.path.as_str()).collect();
    assert!(paths.contains(&"/api/user/userInfo/{id}"));
    assert!(paths.contains(&"/api_tool/api_tool/tool/toolInfo/{id}"));
}
