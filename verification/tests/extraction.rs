use route_codegen::extract::extract_file_routes;
use route_codegen::HttpMethod;

fn extract(
    text: &str,
    qualifier: &str,
    dirs: &[&str],
    stem: &str,
    legacy: bool,
) -> Vec<route_codegen::extract::RouteDecl> {
    let q = qualifier.to_string();
    let d: Vec<String> = dirs.iter().map(|s| s.to_string()).collect();
    let st = stem.to_string();
    extract_file_routes(text, &q, &d, &st, legacy).expect("source should parse")
}

#[test]
fn module_doubling_same_name() {
    let src = "pub mod agency {\n    #[get(\"/agency/{id}\")]\n    pub async fn get_agency() {}\n}\n";
    let decls = extract(src, "crate", &["handler"], "agency", false);
    assert_eq!(decls.len(), 1);
    assert_eq!(decls[0].name, "get_agency");
    assert_eq!(decls[0].method, HttpMethod::Get);
    assert_eq!(decls[0].route_path, "/agency/{id}");
    assert_eq!(decls[0].mod_path, vec!["handler", "agency", "agency"]);
}

#[test]
fn module_doubling_different_name() {
    let src = "pub mod agency_api {\n    #[get(\"/agency/{id}\")]\n    pub async fn get_agency() {}\n}\n";
    let decls = extract(src, "crate", &["handler"], "agency", false);
    assert_eq!(decls.len(), 1);
    assert_eq!(decls[0].mod_path, vec!["handler", "agency", "agency_api"]);
}

#[test]
fn legacy_repush_adds_an_extra_segment() {
    let src = "pub mod agency {\n    #[get(\"/agency/{id}\")]\n    pub async fn get_agency() {}\n}\n";
    let decls = extract(src, "crate", &["handler"], "agency", true);
    assert_eq!(decls[0].mod_path, vec!["handler", "agency", "agency", "agency"]);
}

#[test]
fn top_level_function_uses_file_stem() {
    let src = "#[get(\"/user/{id}\")]\npub async fn get_user() {}\n";
    let decls = extract(src, "crate", &["handler"], "nation", false);
    assert_eq!(decls.len(), 1);
    assert_eq!(decls[0].mod_path, vec!["handler", "nation"]);
}

#[test]
fn root_marker_is_dropped_from_the_path() {
    let src = "#[get(\"/x\")]\npub async fn x_handler() {}\n";
    let decls = extract(src, "crate", &[], "user", false);
    assert_eq!(decls[0].mod_path, vec!["user"]);
}

#[test]
fn mod_file_stem_is_dropped_from_the_path() {
    let src = "#[put(\"/mod/{id}\")]\npub async fn update_mod() {}\n";
    let decls = extract(src, "crate", &["handler"], "mod", false);
    assert_eq!(decls.len(), 1);
    assert_eq!(decls[0].method, HttpMethod::Put);
    assert_eq!(decls[0].mod_path, vec!["handler"]);
}

#[test]
fn member_qualifier_is_kept() {
    let src = "#[get(\"/admin/{id}\")]\npub async fn get_admin() {}\n";
    let decls = extract(src, "api_tool", &["api_tool", "admin"], "admin_info", false);
    assert_eq!(decls[0].mod_path, vec!["api_tool", "api_tool", "admin", "admin_info"]);
}

#[test]
fn lib_stem_contributes_no_segment() {
    let src = "#[put(\"/lib/{id}\")]\npub async fn lib_handler() {}\n";
    let decls = extract(src, "api_tool", &[], "lib", false);
    assert_eq!(decls[0].mod_path, vec!["api_tool"]);
}

#[test]
fn main_directory_segment_is_dropped() {
    let src = "#[get(\"/x\")]\npub async fn x_handler() {}\n";
    let decls = extract(src, "crate", &["main", "inner"], "file", false);
    assert_eq!(decls[0].mod_path, vec!["inner", "file"]);
}

#[test]
fn last_marker_wins_on_multiple_markers() {
    let src = "#[get(\"/a\")]\n#[post(\"/b\")]\npub async fn multi() {}\n";
    let decls = extract(src, "crate", &[], "f", false);
    assert_eq!(decls.len(), 1);
    assert_eq!(decls[0].method, HttpMethod::Post);
    assert_eq!(decls[0].route_path, "/b");
}

#[test]
fn marker_without_literal_does_not_override() {
    let src = "#[get(\"/a\")]\n#[post]\npub async fn partial() {}\n";
    let decls = extract(src, "crate", &[], "f", false);
    assert_eq!(decls.len(), 1);
    assert_eq!(decls[0].method, HttpMethod::Get);
    assert_eq!(decls[0].route_path, "/a");
}

#[test]
fn unmarked_functions_are_ignored() {
    let src = "pub fn plain() {}\n#[route]\npub async fn decorated() {}\n";
    let decls = extract(src, "crate", &[], "f", false);
    assert!(decls.is_empty());
}

#[test]
fn qualified_marker_is_recognized() {
    let src = "#[actix_web::get(\"/q\")]\npub async fn q_handler() {}\n";
    let decls = extract(src, "crate", &[], "f", false);
    assert_eq!(decls.len(), 1);
    assert_eq!(decls[0].method, HttpMethod::Get);
    assert_eq!(decls[0].route_path, "/q");
}

#[test]
fn bare_marker_must_match_a_method_name_exactly() {
    let src = "#[GET(\"/shout\")]\npub async fn loud() {}\n";
    let decls = extract(src, "crate", &[], "f", false);
    assert!(decls.is_empty());
}

#[test]
fn all_nine_methods_are_recognized() {
    let src = "#[get(\"/a\")]\npub async fn f1() {}\n#[post(\"/b\")]\npub async fn f2() {}\n#[put(\"/c\")]\npub async fn f3() {}\n#[delete(\"/d\")]\npub async fn f4() {}\n#[head(\"/e\")]\npub async fn f5() {}\n#[connect(\"/f\")]\npub async fn f6() {}\n#[options(\"/g\")]\npub async fn f7() {}\n#[trace(\"/h\")]\npub async fn f8() {}\n#[patch(\"/i\")]\npub async fn f9() {}\n";
    let decls = extract(src, "crate", &[], "f", false);
    let methods: Vec<HttpMethod> = decls.iter().map(|d| d.method).collect();
    assert_eq!(
        methods,
        vec![
            HttpMethod::Get,
            HttpMethod::Post,
            HttpMethod::Put,
            HttpMethod::Delete,
            HttpMethod::Head,
            HttpMethod::Connect,
            HttpMethod::Options,
            HttpMethod::Trace,
            HttpMethod::Patch,
        ]
    );
}

#[test]
fn bodyless_module_declarations_contribute_nothing() {
    let src = "pub mod agency;\npub mod nation;\n";
    let decls = extract(src, "crate", &["handler"], "mod", false);
    assert!(decls.is_empty());
}

#[test]
fn unparsable_source_is_rejected() {
    let q = "crate".to_string();
    let d: Vec<String> = Vec::new();
    let st = "f".to_string();
    assert!(extract_file_routes("fn !!!", &q, &d, &st, false).is_none());
}

#[test]
fn nested_modules_accumulate_segments() {
    let src = "pub mod outer {\n    pub mod inner {\n        #[get(\"/deep\")]\n        pub async fn deep() {}\n    }\n}\n";
    let decls = extract(src, "crate", &[], "file", false);
    assert_eq!(decls[0].mod_path, vec!["file", "outer", "inner"]);
}
