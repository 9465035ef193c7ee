use vstd::prelude::*;

use crate::extract::RouteDeclModel;
use crate::group::{group_models, ModuleGroup, ModuleGroupModel};
use crate::keywords::{escape_segment, escaped_segment};
use crate::text::{join_strings, join_with};
use crate::HttpMethod;

verus! {

// ---------------------------------------------------------------------------
// The synthesized registration source text. Every piece is stated as a
// function of the groups, so the emitted text is pinned character for
// character.
// ---------------------------------------------------------------------------

/// The upper-case name of a request method, as logged.
pub open spec fn method_upper(m: HttpMethod) -> Seq<char> {
    match m {
        HttpMethod::Get => "GET"@,
        HttpMethod::Post => "POST"@,
        HttpMethod::Put => "PUT"@,
        HttpMethod::Delete => "DELETE"@,
        HttpMethod::Head => "HEAD"@,
        HttpMethod::Connect => "CONNECT"@,
        HttpMethod::Options => "OPTIONS"@,
        HttpMethod::Trace => "TRACE"@,
        HttpMethod::Patch => "PATCH"@,
    }
}

/// The upper-case name of a request method.
pub fn method_upper_str(m: HttpMethod) -> (r: String)
    ensures
        r@ == method_upper(m),
{
    match m {
        HttpMethod::Get => String::from_str("GET"),
        HttpMethod::Post => String::from_str("POST"),
        HttpMethod::Put => String::from_str("PUT"),
        HttpMethod::Delete => String::from_str("DELETE"),
        HttpMethod::Head => String::from_str("HEAD"),
        HttpMethod::Connect => String::from_str("CONNECT"),
        HttpMethod::Options => String::from_str("OPTIONS"),
        HttpMethod::Trace => String::from_str("TRACE"),
        HttpMethod::Patch => String::from_str("PATCH"),
    }
}

/// A module path as a generated path expression, every reserved segment in
/// raw form.
pub open spec fn spec_escaped_path(path: Seq<Seq<char>>) -> Seq<char> {
    join_with(path.map_values(|s: Seq<char>| escaped_segment(s)), "::"@)
}

/// Renders a module path as a path expression for generated code.
pub fn escaped_path(path: &Vec<String>) -> (r: String)
    ensures
        r@ == spec_escaped_path(path.deep_view()),
{
    let mut esc: Vec<String> = Vec::new();
    let ghost f = |s: Seq<char>| escaped_segment(s);
    let mut i: usize = 0;
    proof {
        assert(esc.deep_view() =~= path.deep_view().take(0).map_values(f));
    }
    while i < path.len()
        invariant
            i <= path.len(),
            f == (|s: Seq<char>| escaped_segment(s)),
            esc.deep_view() == path.deep_view().take(i as int).map_values(f),
        decreases path.len() - i,
    {
        let e = escape_segment(path[i].as_str());
        let ghost pre = esc.deep_view();
        esc.push(e);
        proof {
            assert(path.deep_view()[i as int] == path@[i as int]@);
            assert(e@ == f(path.deep_view()[i as int]));
            assert(pre.len() == i);
            assert forall|j: int| 0 <= j < i + 1 implies esc.deep_view()[j] == path.deep_view().take(
                i + 1,
            ).map_values(f)[j] by {
                assert(path.deep_view().take(i + 1)[j] == path.deep_view()[j]);
                if j < i {
                    assert(esc.deep_view()[j] == pre[j]);
                    assert(pre[j] == path.deep_view().take(i as int).map_values(f)[j]);
                    assert(path.deep_view().take(i as int)[j] == path.deep_view()[j]);
                } else {
                    assert(esc.deep_view()[j] == e@);
                }
            }
            assert(esc.deep_view() =~= path.deep_view().take(i + 1).map_values(f));
        }
        i = i + 1;
    }
    proof {
        assert(path.deep_view().take(path.len() as int) =~= path.deep_view());
    }
    join_strings(&esc, "::")
}

/// The identifier-friendly name of a module path.
pub open spec fn spec_safe_name(path: Seq<Seq<char>>) -> Seq<char> {
    join_with(path, "_"@)
}

/// The scope string a module path is mounted under.
pub open spec fn spec_scope_name(path: Seq<Seq<char>>) -> Seq<char> {
    if path.len() == 0 {
        "/"@
    } else {
        "/"@ + join_with(path, "/"@)
    }
}

/// Renders the scope string of a module path.
pub fn scope_name(path: &Vec<String>) -> (r: String)
    ensures
        r@ == spec_scope_name(path.deep_view()),
{
    if path.len() == 0 {
        String::from_str("/")
    } else {
        let joined = join_strings(path, "/");
        let mut out = String::from_str("/");
        out.append(joined.as_str());
        out
    }
}

// ---------------------------------------------------------------------------
// Registration units.
// ---------------------------------------------------------------------------

/// One wiring statement of a registration unit.
pub open spec fn spec_service_line(path: Seq<Seq<char>>, name: Seq<char>) -> Seq<char> {
    if path.len() == 0 {
        "    cfg.service("@ + name + ");\n"@
    } else {
        "    cfg.service("@ + spec_escaped_path(path) + "::"@ + name + ");\n"@
    }
}

pub open spec fn spec_service_lines(path: Seq<Seq<char>>, ds: Seq<RouteDeclModel>) -> Seq<char>
    decreases ds.len(),
{
    if ds.len() == 0 {
        Seq::empty()
    } else {
        spec_service_line(path, ds[0].name) + spec_service_lines(path, ds.drop_first())
    }
}

pub proof fn lemma_service_lines_push(path: Seq<Seq<char>>, ds: Seq<RouteDeclModel>, d: RouteDeclModel)
    ensures
        spec_service_lines(path, ds.push(d)) == spec_service_lines(path, ds) + spec_service_line(
            path,
            d.name,
        ),
    decreases ds.len(),
{
    if ds.len() == 0 {
        assert(ds.push(d)[0] == d);
        assert(ds.push(d).drop_first() =~= Seq::<RouteDeclModel>::empty());
        assert(spec_service_lines(path, ds.push(d)) == spec_service_line(path, d.name)
            + spec_service_lines(path, ds.push(d).drop_first()));
        assert(spec_service_lines(path, ds.push(d).drop_first()) =~= Seq::<char>::empty());
        assert(spec_service_lines(path, ds) =~= Seq::<char>::empty());
        assert(spec_service_lines(path, ds.push(d)) =~= spec_service_lines(path, ds)
            + spec_service_line(path, d.name));
    } else {
        lemma_service_lines_push(path, ds.drop_first(), d);
        assert(ds.push(d).drop_first() =~= ds.drop_first().push(d));
        assert(ds.push(d)[0] == ds[0]);
        assert(spec_service_lines(path, ds.push(d)) == spec_service_line(path, ds[0].name)
            + spec_service_lines(path, ds.drop_first().push(d)));
        assert(spec_service_lines(path, ds) == spec_service_line(path, ds[0].name)
            + spec_service_lines(path, ds.drop_first()));
        assert(spec_service_line(path, ds[0].name) + (spec_service_lines(path, ds.drop_first())
            + spec_service_line(path, d.name)) =~= (spec_service_line(path, ds[0].name)
            + spec_service_lines(path, ds.drop_first())) + spec_service_line(path, d.name));
    }
}

/// The registration unit of one module group: a procedure that wires every
/// declaration of the group into the routing configuration surface.
pub open spec fn spec_register_unit(g: ModuleGroupModel) -> Seq<char> {
    "pub fn register_"@ + spec_safe_name(g.mod_path)
        + "(cfg: &mut actix_web::web::ServiceConfig) {\n"@ + spec_service_lines(g.mod_path, g.decls)
        + "}\n"@
}

/// The mount unit of one module group: a procedure that declares the scope
/// and attaches the registration unit under it.
pub open spec fn spec_mount_unit(g: ModuleGroupModel) -> Seq<char> {
    "pub fn configure_"@ + spec_safe_name(g.mod_path)
        + "(cfg: &mut actix_web::web::ServiceConfig) {\n    cfg.service(actix_web::web::scope(\""@
        + spec_scope_name(g.mod_path) + "\").configure(register_"@ + spec_safe_name(g.mod_path)
        + "));\n}\n"@
}

/// Renders the registration unit of one group.
pub fn register_unit(g: &ModuleGroup) -> (r: String)
    ensures
        r@ == spec_register_unit(g@),
{
    let mut out = String::from_str("pub fn register_");
    let safe = join_strings(&g.mod_path, "_");
    out.append(safe.as_str());
    out.append("(cfg: &mut actix_web::web::ServiceConfig) {\n");
    let path_empty = g.mod_path.len() == 0;
    let epath = escaped_path(&g.mod_path);
    let ghost gpath = g.mod_path.deep_view();
    let ghost gds = crate::extract::decl_models(g.decls@);
    let mut i: usize = 0;
    let ghost header = out@;
    proof {
        assert(gds.take(0) =~= Seq::<RouteDeclModel>::empty());
        assert(out@ =~= header + spec_service_lines(gpath, gds.take(0)));
    }
    while i < g.decls.len()
        invariant
            i <= g.decls.len(),
            gds == crate::extract::decl_models(g.decls@),
            gds.len() == g.decls.len(),
            gpath == g.mod_path.deep_view(),
            path_empty == (gpath.len() == 0),
            epath@ == spec_escaped_path(gpath),
            out@ == header + spec_service_lines(gpath, gds.take(i as int)),
        decreases g.decls.len() - i,
    {
        out.append("    cfg.service(");
        if !path_empty {
            out.append(epath.as_str());
            out.append("::");
        }
        out.append(g.decls[i].name.as_str());
        out.append(");\n");
        proof {
            assert(gds[i as int] == g.decls@[i as int]@);
            assert(gds.take(i + 1).drop_last() =~= gds.take(i as int));
            assert(gds.take(i + 1).last() == gds[i as int]);
            assert(gds.take(i + 1) =~= gds.take(i as int).push(gds[i as int]));
            lemma_service_lines_push(gpath, gds.take(i as int), gds[i as int]);
            assert(out@ =~= header + spec_service_lines(gpath, gds.take(i + 1)));
        }
        i = i + 1;
    }
    proof {
        assert(gds.take(gds.len() as int) =~= gds);
    }
    out.append("}\n");
    proof {
        assert(out@ =~= spec_register_unit(g@));
    }
    out
}

/// Renders the mount unit of one group.
pub fn mount_unit(g: &ModuleGroup) -> (r: String)
    ensures
        r@ == spec_mount_unit(g@),
{
    let safe = join_strings(&g.mod_path, "_");
    let scope = scope_name(&g.mod_path);
    let mut out = String::from_str("pub fn configure_");
    out.append(safe.as_str());
    out.append("(cfg: &mut actix_web::web::ServiceConfig) {\n    cfg.service(actix_web::web::scope(\"");
    out.append(scope.as_str());
    out.append("\").configure(register_");
    out.append(safe.as_str());
    out.append("));\n}\n");
    proof {
        assert(out@ =~= spec_mount_unit(g@));
    }
    out
}

/// The registration and mount units of all groups, in order.
pub open spec fn spec_units(gs: Seq<ModuleGroupModel>) -> Seq<char>
    decreases gs.len(),
{
    if gs.len() == 0 {
        Seq::empty()
    } else {
        spec_register_unit(gs[0]) + spec_mount_unit(gs[0]) + spec_units(gs.drop_first())
    }
}

pub proof fn lemma_units_push(gs: Seq<ModuleGroupModel>, g: ModuleGroupModel)
    ensures
        spec_units(gs.push(g)) == spec_units(gs) + spec_register_unit(g) + spec_mount_unit(g),
    decreases gs.len(),
{
    if gs.len() == 0 {
        assert(gs.push(g)[0] == g);
        assert(gs.push(g).drop_first() =~= Seq::<ModuleGroupModel>::empty());
        assert(spec_units(gs.push(g)) == spec_register_unit(g) + spec_mount_unit(g) + spec_units(
            gs.push(g).drop_first(),
        ));
        assert(spec_units(gs.push(g).drop_first()) =~= Seq::<char>::empty());
        assert(spec_units(gs) =~= Seq::<char>::empty());
        assert(spec_units(gs.push(g)) =~= spec_units(gs) + spec_register_unit(g) + spec_mount_unit(
            g,
        ));
    } else {
        lemma_units_push(gs.drop_first(), g);
        assert(gs.push(g).drop_first() =~= gs.drop_first().push(g));
        assert(gs.push(g)[0] == gs[0]);
        assert(spec_units(gs.push(g)) == spec_register_unit(gs[0]) + spec_mount_unit(gs[0])
            + spec_units(gs.drop_first().push(g)));
        assert(spec_units(gs) == spec_register_unit(gs[0]) + spec_mount_unit(gs[0]) + spec_units(
            gs.drop_first(),
        ));
        assert(spec_register_unit(gs[0]) + spec_mount_unit(gs[0]) + (spec_units(gs.drop_first())
            + spec_register_unit(g) + spec_mount_unit(g)) =~= (spec_register_unit(gs[0])
            + spec_mount_unit(gs[0]) + spec_units(gs.drop_first())) + spec_register_unit(g)
            + spec_mount_unit(g));
    }
}

// ---------------------------------------------------------------------------
// The per-route diagnostics list.
// ---------------------------------------------------------------------------

/// Model of one diagnostics entry: upper-case method and full mounted path.
#[verifier::ext_equal]
pub ghost struct RoutePairModel {
    pub method: Seq<char>,
    pub path: Seq<char>,
}

/// One diagnostics entry: upper-case method and full mounted path.
pub struct RoutePair {
    pub method: String,
    pub path: String,
}

impl View for RoutePair {
    type V = RoutePairModel;

    open spec fn view(&self) -> RoutePairModel {
        RoutePairModel { method: self.method@, path: self.path@ }
    }
}

pub open spec fn pair_models(s: Seq<RoutePair>) -> Seq<RoutePairModel> {
    s.map_values(|p: RoutePair| p@)
}

/// The diagnostics entries of one group's declarations.
pub open spec fn spec_decl_pairs(scope: Seq<char>, ds: Seq<RouteDeclModel>) -> Seq<RoutePairModel>
    decreases ds.len(),
{
    if ds.len() == 0 {
        Seq::empty()
    } else {
        seq![
            RoutePairModel { method: method_upper(ds[0].method), path: scope + ds[0].route_path },
        ] + spec_decl_pairs(scope, ds.drop_first())
    }
}

pub proof fn lemma_decl_pairs_push(scope: Seq<char>, ds: Seq<RouteDeclModel>, d: RouteDeclModel)
    ensures
        spec_decl_pairs(scope, ds.push(d)) == spec_decl_pairs(scope, ds).push(
            RoutePairModel { method: method_upper(d.method), path: scope + d.route_path },
        ),
    decreases ds.len(),
{
    if ds.len() == 0 {
        assert(ds.push(d)[0] == d);
        assert(ds.push(d).drop_first() =~= Seq::<RouteDeclModel>::empty());
        assert(spec_decl_pairs(scope, ds.push(d)) == seq![
            RoutePairModel { method: method_upper(d.method), path: scope + d.route_path },
        ] + spec_decl_pairs(scope, ds.push(d).drop_first()));
        assert(spec_decl_pairs(scope, ds.push(d).drop_first()) =~= Seq::<RoutePairModel>::empty());
        assert(spec_decl_pairs(scope, ds) =~= Seq::<RoutePairModel>::empty());
        assert(spec_decl_pairs(scope, ds.push(d)) =~= spec_decl_pairs(scope, ds).push(
            RoutePairModel { method: method_upper(d.method), path: scope + d.route_path },
        ));
    } else {
        lemma_decl_pairs_push(scope, ds.drop_first(), d);
        assert(ds.push(d).drop_first() =~= ds.drop_first().push(d));
        assert(ds.push(d)[0] == ds[0]);
        let hd = seq![
            RoutePairModel { method: method_upper(ds[0].method), path: scope + ds[0].route_path },
        ];
        let pd = RoutePairModel { method: method_upper(d.method), path: scope + d.route_path };
        assert(spec_decl_pairs(scope, ds.push(d)) == hd + spec_decl_pairs(
            scope,
            ds.drop_first().push(d),
        ));
        assert(spec_decl_pairs(scope, ds) == hd + spec_decl_pairs(scope, ds.drop_first()));
        assert(hd + spec_decl_pairs(scope, ds.drop_first()).push(pd) =~= (hd + spec_decl_pairs(
            scope,
            ds.drop_first(),
        )).push(pd));
    }
}

/// The diagnostics entries of all groups, in order.
pub open spec fn spec_route_pairs(gs: Seq<ModuleGroupModel>) -> Seq<RoutePairModel>
    decreases gs.len(),
{
    if gs.len() == 0 {
        Seq::empty()
    } else {
        spec_decl_pairs(spec_scope_name(gs[0].mod_path), gs[0].decls) + spec_route_pairs(
            gs.drop_first(),
        )
    }
}

pub proof fn lemma_route_pairs_push(gs: Seq<ModuleGroupModel>, g: ModuleGroupModel)
    ensures
        spec_route_pairs(gs.push(g)) == spec_route_pairs(gs) + spec_decl_pairs(
            spec_scope_name(g.mod_path),
            g.decls,
        ),
    decreases gs.len(),
{
    if gs.len() == 0 {
        assert(gs.push(g)[0] == g);
        assert(gs.push(g).drop_first() =~= Seq::<ModuleGroupModel>::empty());
        assert(spec_route_pairs(gs.push(g)) == spec_decl_pairs(spec_scope_name(g.mod_path), g.decls)
            + spec_route_pairs(gs.push(g).drop_first()));
        assert(spec_route_pairs(gs.push(g).drop_first()) =~= Seq::<RoutePairModel>::empty());
        assert(spec_route_pairs(gs) =~= Seq::<RoutePairModel>::empty());
        assert(spec_route_pairs(gs.push(g)) =~= spec_route_pairs(gs) + spec_decl_pairs(
            spec_scope_name(g.mod_path),
            g.decls,
        ));
    } else {
        lemma_route_pairs_push(gs.drop_first(), g);
        assert(gs.push(g).drop_first() =~= gs.drop_first().push(g));
        assert(gs.push(g)[0] == gs[0]);
        let hd = spec_decl_pairs(spec_scope_name(gs[0].mod_path), gs[0].decls);
        let tl = spec_decl_pairs(spec_scope_name(g.mod_path), g.decls);
        assert(spec_route_pairs(gs.push(g)) == hd + spec_route_pairs(gs.drop_first().push(g)));
        assert(spec_route_pairs(gs) == hd + spec_route_pairs(gs.drop_first()));
        assert(hd + (spec_route_pairs(gs.drop_first()) + tl) =~= (hd + spec_route_pairs(
            gs.drop_first(),
        )) + tl);
    }
}

/// Collects the diagnostics entries of all groups.
pub fn route_pairs(groups: &Vec<ModuleGroup>) -> (r: Vec<RoutePair>)
    ensures
        pair_models(r@) == spec_route_pairs(group_models(groups@)),
{
    let mut out: Vec<RoutePair> = Vec::new();
    let ghost gms = group_models(groups@);
    let mut i: usize = 0;
    proof {
        assert(gms.take(0) =~= Seq::<ModuleGroupModel>::empty());
        assert(pair_models(out@) =~= spec_route_pairs(gms.take(0)));
    }
    while i < groups.len()
        invariant
            i <= groups.len(),
            gms == group_models(groups@),
            gms.len() == groups.len(),
            pair_models(out@) == spec_route_pairs(gms.take(i as int)),
        decreases groups.len() - i,
    {
        let g = &groups[i];
        let scope = scope_name(&g.mod_path);
        let ghost gscope = spec_scope_name(g@.mod_path);
        let ghost gds = crate::extract::decl_models(g.decls@);
        let mut j: usize = 0;
        proof {
            assert(gms[i as int] == g@);
            assert(gds.take(0) =~= Seq::<RouteDeclModel>::empty());
            assert(pair_models(out@) =~= spec_route_pairs(gms.take(i as int)) + spec_decl_pairs(
                gscope,
                gds.take(0),
            ));
        }
        while j < g.decls.len()
            invariant
                j <= g.decls.len(),
                gds == crate::extract::decl_models(g.decls@),
                gds.len() == g.decls.len(),
                gscope == spec_scope_name(g@.mod_path),
                scope@ == gscope,
                g == &groups[i as int],
                i < groups.len(),
                gms == group_models(groups@),
                gms.len() == groups.len(),
                gms[i as int] == g@,
                pair_models(out@) == spec_route_pairs(gms.take(i as int)) + spec_decl_pairs(
                    gscope,
                    gds.take(j as int),
                ),
            decreases g.decls.len() - j,
        {
            let method = method_upper_str(g.decls[j].method);
            let mut full = scope.clone();
            full.append(g.decls[j].route_path.as_str());
            let p = RoutePair { method, path: full };
            let ghost pre = out@;
            out.push(p);
            proof {
                assert(gds[j as int] == g.decls@[j as int]@);
                assert(gds.take(j + 1) =~= gds.take(j as int).push(gds[j as int]));
                lemma_decl_pairs_push(gscope, gds.take(j as int), gds[j as int]);
                assert(p@ =~= (RoutePairModel {
                    method: method_upper(gds[j as int].method),
                    path: gscope + gds[j as int].route_path,
                }));
                assert(pair_models(out@) =~= pair_models(pre).push(p@));
                assert(pair_models(out@) =~= spec_route_pairs(gms.take(i as int)) + spec_decl_pairs(
                    gscope,
                    gds.take(j + 1),
                ));
            }
            j = j + 1;
        }
        proof {
            assert(gds.take(gds.len() as int) =~= gds);
            assert(gms.take(i + 1) =~= gms.take(i as int).push(gms[i as int]));
            lemma_route_pairs_push(gms.take(i as int), gms[i as int]);
            assert(pair_models(out@) =~= spec_route_pairs(gms.take(i + 1)));
        }
        i = i + 1;
    }
    proof {
        assert(gms.take(gms.len() as int) =~= gms);
    }
    out
}

// ---------------------------------------------------------------------------
// The top-level configure entry point.
// ---------------------------------------------------------------------------

/// One diagnostic log line of the generated entry point.
pub open spec fn spec_log_line(p: RoutePairModel) -> Seq<char> {
    "            log::info!(\"\u{1F680} Registered route: {} {}\", \""@ + p.method + "\", \""@
        + p.path + "\");\n"@
}

pub open spec fn spec_log_lines(ps: Seq<RoutePairModel>) -> Seq<char>
    decreases ps.len(),
{
    if ps.len() == 0 {
        Seq::empty()
    } else {
        spec_log_line(ps[0]) + spec_log_lines(ps.drop_first())
    }
}

pub proof fn lemma_log_lines_push(ps: Seq<RoutePairModel>, p: RoutePairModel)
    ensures
        spec_log_lines(ps.push(p)) == spec_log_lines(ps) + spec_log_line(p),
    decreases ps.len(),
{
    if ps.len() == 0 {
        assert(ps.push(p)[0] == p);
        assert(ps.push(p).drop_first() =~= Seq::<RoutePairModel>::empty());
        assert(spec_log_lines(ps.push(p)) == spec_log_line(p) + spec_log_lines(
            ps.push(p).drop_first(),
        ));
        assert(spec_log_lines(ps.push(p).drop_first()) =~= Seq::<char>::empty());
        assert(spec_log_lines(ps) =~= Seq::<char>::empty());
        assert(spec_log_lines(ps.push(p)) =~= spec_log_lines(ps) + spec_log_line(p));
    } else {
        lemma_log_lines_push(ps.drop_first(), p);
        assert(ps.push(p).drop_first() =~= ps.drop_first().push(p));
        assert(ps.push(p)[0] == ps[0]);
        assert(spec_log_lines(ps.push(p)) == spec_log_line(ps[0]) + spec_log_lines(
            ps.drop_first().push(p),
        ));
        assert(spec_log_lines(ps) == spec_log_line(ps[0]) + spec_log_lines(ps.drop_first()));
        assert(spec_log_line(ps[0]) + (spec_log_lines(ps.drop_first()) + spec_log_line(p)) =~= (
        spec_log_line(ps[0]) + spec_log_lines(ps.drop_first())) + spec_log_line(p));
    }
}

/// One invocation of a mount unit in the generated entry point.
pub open spec fn spec_mount_call(g: ModuleGroupModel) -> Seq<char> {
    "    cfg.configure(configure_"@ + spec_safe_name(g.mod_path) + ");\n"@
}

pub open spec fn spec_mount_calls(gs: Seq<ModuleGroupModel>) -> Seq<char>
    decreases gs.len(),
{
    if gs.len() == 0 {
        Seq::empty()
    } else {
        spec_mount_call(gs[0]) + spec_mount_calls(gs.drop_first())
    }
}

pub proof fn lemma_mount_calls_push(gs: Seq<ModuleGroupModel>, g: ModuleGroupModel)
    ensures
        spec_mount_calls(gs.push(g)) == spec_mount_calls(gs) + spec_mount_call(g),
    decreases gs.len(),
{
    if gs.len() == 0 {
        assert(gs.push(g)[0] == g);
        assert(gs.push(g).drop_first() =~= Seq::<ModuleGroupModel>::empty());
        assert(spec_mount_calls(gs.push(g)) == spec_mount_call(g) + spec_mount_calls(
            gs.push(g).drop_first(),
        ));
        assert(spec_mount_calls(gs.push(g).drop_first()) =~= Seq::<char>::empty());
        assert(spec_mount_calls(gs) =~= Seq::<char>::empty());
        assert(spec_mount_calls(gs.push(g)) =~= spec_mount_calls(gs) + spec_mount_call(g));
    } else {
        lemma_mount_calls_push(gs.drop_first(), g);
        assert(gs.push(g).drop_first() =~= gs.drop_first().push(g));
        assert(gs.push(g)[0] == gs[0]);
        assert(spec_mount_calls(gs.push(g)) == spec_mount_call(gs[0]) + spec_mount_calls(
            gs.drop_first().push(g),
        ));
        assert(spec_mount_calls(gs) == spec_mount_call(gs[0]) + spec_mount_calls(gs.drop_first()));
        assert(spec_mount_call(gs[0]) + (spec_mount_calls(gs.drop_first()) + spec_mount_call(g))
            =~= (spec_mount_call(gs[0]) + spec_mount_calls(gs.drop_first())) + spec_mount_call(g));
    }
}

/// The generated configure entry point: on the first call only, guarded by a
/// process-wide one-shot flag, it logs one line per route; then it invokes
/// every mount unit.
pub open spec fn spec_configure_entry(gs: Seq<ModuleGroupModel>, ps: Seq<RoutePairModel>) -> Seq<
    char,
> {
    "pub fn configure(cfg: &mut actix_web::web::ServiceConfig) {\n    {\n        use std::sync::atomic::{AtomicBool, Ordering};\n        static INITIALIZED: AtomicBool = AtomicBool::new(false);\n        if INITIALIZED.compare_exchange(false, true, Ordering::SeqCst, Ordering::SeqCst).is_ok() {\n"@
        + spec_log_lines(ps) + "        }\n    }\n"@ + spec_mount_calls(gs) + "}\n"@
}

/// The whole generated source text.
pub open spec fn spec_generated(gs: Seq<ModuleGroupModel>, ps: Seq<RoutePairModel>) -> Seq<char> {
    spec_units(gs) + spec_configure_entry(gs, ps)
}

/// Renders the whole generated source text for the given groups and
/// diagnostics entries.
pub fn generate_text(groups: &Vec<ModuleGroup>, pairs: &Vec<RoutePair>) -> (r: String)
    ensures
        r@ == spec_generated(group_models(groups@), pair_models(pairs@)),
{
    let ghost gms = group_models(groups@);
    let ghost pms = pair_models(pairs@);
    let mut out = String::new();
    let mut i: usize = 0;
    proof {
        assert(gms.take(0) =~= Seq::<ModuleGroupModel>::empty());
        assert(out@ =~= spec_units(gms.take(0)));
    }
    while i < groups.len()
        invariant
            i <= groups.len(),
            gms == group_models(groups@),
            gms.len() == groups.len(),
            out@ == spec_units(gms.take(i as int)),
        decreases groups.len() - i,
    {
        let reg = register_unit(&groups[i]);
        let mnt = mount_unit(&groups[i]);
        out.append(reg.as_str());
        out.append(mnt.as_str());
        proof {
            assert(gms[i as int] == groups@[i as int]@);
            assert(gms.take(i + 1) =~= gms.take(i as int).push(gms[i as int]));
            lemma_units_push(gms.take(i as int), gms[i as int]);
            assert(out@ =~= spec_units(gms.take(i + 1)));
        }
        i = i + 1;
    }
    proof {
        assert(gms.take(gms.len() as int) =~= gms);
    }
    let ghost units_text = out@;
    out.append(
        "pub fn configure(cfg: &mut actix_web::web::ServiceConfig) {\n    {\n        use std::sync::atomic::{AtomicBool, Ordering};\n        static INITIALIZED: AtomicBool = AtomicBool::new(false);\n        if INITIALIZED.compare_exchange(false, true, Ordering::SeqCst, Ordering::SeqCst).is_ok() {\n",
    );
    let ghost entry_head = out@;
    let mut j: usize = 0;
    proof {
        assert(pms.take(0) =~= Seq::<RoutePairModel>::empty());
        assert(out@ =~= entry_head + spec_log_lines(pms.take(0)));
    }
    while j < pairs.len()
        invariant
            j <= pairs.len(),
            pms == pair_models(pairs@),
            pms.len() == pairs.len(),
            out@ == entry_head + spec_log_lines(pms.take(j as int)),
        decreases pairs.len() - j,
    {
        out.append("            log::info!(\"\u{1F680} Registered route: {} {}\", \"");
        out.append(pairs[j].method.as_str());
        out.append("\", \"");
        out.append(pairs[j].path.as_str());
        out.append("\");\n");
        proof {
            assert(pms[j as int] == pairs@[j as int]@);
            assert(pms.take(j + 1) =~= pms.take(j as int).push(pms[j as int]));
            lemma_log_lines_push(pms.take(j as int), pms[j as int]);
            assert(out@ =~= entry_head + spec_log_lines(pms.take(j + 1)));
        }
        j = j + 1;
    }
    proof {
        assert(pms.take(pms.len() as int) =~= pms);
    }
    out.append("        }\n    }\n");
    let ghost calls_head = out@;
    let mut k: usize = 0;
    proof {
        assert(gms.take(0) =~= Seq::<ModuleGroupModel>::empty());
        assert(out@ =~= calls_head + spec_mount_calls(gms.take(0)));
    }
    while k < groups.len()
        invariant
            k <= groups.len(),
            gms == group_models(groups@),
            gms.len() == groups.len(),
            out@ == calls_head + spec_mount_calls(gms.take(k as int)),
        decreases groups.len() - k,
    {
        let safe = join_strings(&groups[k].mod_path, "_");
        out.append("    cfg.configure(configure_");
        out.append(safe.as_str());
        out.append(");\n");
        proof {
            assert(gms[k as int] == groups@[k as int]@);
            assert(gms.take(k + 1) =~= gms.take(k as int).push(gms[k as int]));
            lemma_mount_calls_push(gms.take(k as int), gms[k as int]);
            assert(out@ =~= calls_head + spec_mount_calls(gms.take(k + 1)));
        }
        k = k + 1;
    }
    proof {
        assert(gms.take(gms.len() as int) =~= gms);
    }
    out.append("}\n");
    proof {
        assert(out@ =~= spec_generated(gms, pms));
    }
    out
}

} // verus!
