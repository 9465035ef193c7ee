use route_codegen::emit::{generate_text, register_unit, route_pairs, scope_name};
use route_codegen::extract::RouteDecl;
use route_codegen::group::{group_decls, sort_decls};
use route_codegen::keywords::{escape_segment, is_rust_keyword};
use route_codegen::HttpMethod;

fn decl(name: &str, method: HttpMethod, path: &str, mods: &[&str]) -> RouteDecl {
    RouteDecl {
        name: name.to_string(),
        method,
        route_path: path.to_string(),
        mod_path: mods.iter().map(|s| s.to_string()).collect(),
    }
}

#[test]
fn grouping_splits_by_exact_module_path() {
    let decls = vec![
        decl("get_agency", HttpMethod::Get, "/agency/{id}", &["handler", "agency"]),
        decl("hello", HttpMethod::Get, "/", &["handler", "nation"]),
        decl("create_agency", HttpMethod::Post, "/agency", &["handler", "agency"]),
    ];
    let groups = group_decls(sort_decls(decls));
    assert_eq!(groups.len(), 2);
    assert_eq!(groups[0].mod_path, vec!["handler", "agency"]);
    assert_eq!(groups[0].decls.len(), 2);
    assert!(groups[0].decls.iter().all(|d| d.mod_path == vec!["handler", "agency"]));
    assert_eq!(groups[1].mod_path, vec!["handler", "nation"]);
    assert_eq!(groups[1].decls.len(), 1);
    assert_eq!(groups[1].decls[0].name, "hello");
    let p0 = scope_name(&groups[0].mod_path);
    let p1 = scope_name(&groups[1].mod_path);
    assert_eq!(p0, "/handler/agency");
    assert_eq!(p1, "/handler/nation");
}

#[test]
fn order_sensitive_grouping_keeps_permuted_paths_apart() {
    let decls = vec![
        decl("a", HttpMethod::Get, "/a", &["handler", "agency"]),
        decl("b", HttpMethod::Get, "/b", &["agency", "handler"]),
    ];
    let groups = group_decls(sort_decls(decls));
    assert_eq!(groups.len(), 2);
}

#[test]
fn sorting_is_by_path_then_name() {
    let decls = vec![
        decl("zeta", HttpMethod::Get, "/z", &["b"]),
        decl("alpha", HttpMethod::Get, "/a", &["b"]),
        decl("mid", HttpMethod::Get, "/m", &["a"]),
    ];
    let sorted = sort_decls(decls);
    let names: Vec<&str> = sorted.iter().map(|d| d.name.as_str()).collect();
    assert_eq!(names, vec!["mid", "alpha", "zeta"]);
}

#[test]
fn generation_is_order_independent() {
    let forward = vec![
        decl("get_agency", HttpMethod::Get, "/agency/{id}", &["handler", "agency"]),
        decl("hello", HttpMethod::Get, "/", &["handler", "nation"]),
        decl("create_agency", HttpMethod::Post, "/agency", &["handler", "agency"]),
    ];
    let backward = vec![
        decl("create_agency", HttpMethod::Post, "/agency", &["handler", "agency"]),
        decl("hello", HttpMethod::Get, "/", &["handler", "nation"]),
        decl("get_agency", HttpMethod::Get, "/agency/{id}", &["handler", "agency"]),
    ];
    let g1 = group_decls(sort_decls(forward));
    let g2 = group_decls(sort_decls(backward));
    let p1 = route_pairs(&g1);
    let p2 = route_pairs(&g2);
    let t1 = generate_text(&g1, &p1);
    let t2 = generate_text(&g2, &p2);
    assert_eq!(t1, t2);
}

#[test]
fn keyword_segments_are_escaped() {
    assert!(is_rust_keyword("type"));
    assert!(is_rust_keyword("fn"));
    assert!(is_rust_keyword("final"));
    assert!(!is_rust_keyword("handler"));
    assert!(!is_rust_keyword("Type"));
    assert_eq!(escape_segment("type"), "r#type");
    assert_eq!(escape_segment("nation"), "nation");
}

#[test]
fn register_unit_escapes_keyword_path_segments() {
    let g = &group_decls(sort_decls(vec![decl(
        "get_thing",
        HttpMethod::Get,
        "/thing",
        &["handler", "type"],
    )]))[0];
    let text = register_unit(g);
    assert!(text.contains("handler::r#type::get_thing"));
    assert!(text.contains("pub fn register_handler_type"));
}

#[test]
fn generated_text_is_valid_source() {
    let decls = vec![
        decl("get_thing", HttpMethod::Get, "/thing/{id}", &["handler", "type"]),
        decl("hello", HttpMethod::Get, "/", &["handler", "nation"]),
    ];
    let groups = group_decls(sort_decls(decls));
    let pairs = route_pairs(&groups);
    let text = generate_text(&groups, &pairs);
    let parsed = syn::parse_file(&text);
    assert!(parsed.is_ok());
}

#[test]
fn register_unit_has_the_expected_text() {
    let g = &group_decls(sort_decls(vec![decl(
        "hello",
        HttpMethod::Get,
        "/",
        &["handler", "nation"],
    )]))[0];
    let text = register_unit(g);
    let expected = "pub fn register_handler_nation(cfg: &mut actix_web::web::ServiceConfig) {\n    cfg.service(handler::nation::hello);\n}\n";
    assert_eq!(text, expected);
}

#[test]
fn empty_module_path_mounts_at_root() {
    let groups = group_decls(sort_decls(vec![decl("top", HttpMethod::Get, "/top", &[])]));
    assert_eq!(scope_name(&groups[0].mod_path), "/");
    let text = register_unit(&groups[0]);
    assert!(text.contains("cfg.service(top);"));
    let pairs = route_pairs(&groups);
    assert_eq!(pairs[0].path, "//top");
}

#[test]
fn route_pairs_carry_upper_case_methods_and_full_paths() {
    let decls = vec![
        decl("get_agency", HttpMethod::Get, "/agency/{id}", &["handler", "agency"]),
        decl("patch_x", HttpMethod::Patch, "/patch", &["handler", "agency"]),
    ];
    let groups = group_decls(sort_decls(decls));
    let pairs = route_pairs(&groups);
    assert_eq!(pairs.len(), 2);
    assert_eq!(pairs[0].method, "GET");
    assert_eq!(pairs[0].path, "/handler/agency/agency/{id}");
    assert_eq!(pairs[1].method, "PATCH");
    assert_eq!(pairs[1].path, "/handler/agency/patch");
}

#[test]
fn configure_entry_point_carries_one_log_line_per_route() {
    let decls = vec![
        decl("a_one", HttpMethod::Get, "/one", &["m"]),
        decl("b_two", HttpMethod::Post, "/two", &["m"]),
    ];
    let groups = group_decls(sort_decls(decls));
    let pairs = route_pairs(&groups);
    let text = generate_text(&groups, &pairs);
    assert_eq!(text.matches("log::info!").count(), 2);
    assert!(text.contains("log::info!(\"\u{1F680} Registered route: {} {}\", \"GET\", \"/m/one\");"));
    assert!(text.contains("log::info!(\"\u{1F680} Registered route: {} {}\", \"POST\", \"/m/two\");"));
    assert_eq!(text.matches("compare_exchange").count(), 1);
    assert!(text.contains("static INITIALIZED: AtomicBool"));
    assert!(text.contains("cfg.configure(configure_m);"));
}
