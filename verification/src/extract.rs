use vstd::prelude::*;

use crate::ast::{
    item_model_of, item_models_of, lemma_item_models_of_len, marker_model_of, marker_models_of,
    syn_ast, syn_parses, ItemModel, MarkerModel, SrcItem, SrcMarker,
};
use crate::convert::parse_source;
use crate::text::str_eq;
use crate::HttpMethod;

verus! {

// ---------------------------------------------------------------------------
// Route declarations and how they are read off a file's items.
// ---------------------------------------------------------------------------

/// Model of one discovered route declaration.
#[verifier::ext_equal]
pub ghost struct RouteDeclModel {
    pub name: Seq<char>,
    pub method: HttpMethod,
    pub route_path: Seq<char>,
    pub mod_path: Seq<Seq<char>>,
}

/// One discovered route declaration: a handler function's name, its request
/// method, its route path literal, and the module path of its lexical scope.
pub struct RouteDecl {
    pub name: String,
    pub method: HttpMethod,
    pub route_path: String,
    pub mod_path: Vec<String>,
}

impl View for RouteDecl {
    type V = RouteDeclModel;

    open spec fn view(&self) -> RouteDeclModel {
        RouteDeclModel {
            name: self.name@,
            method: self.method,
            route_path: self.route_path@,
            mod_path: self.mod_path.deep_view(),
        }
    }
}

pub open spec fn decl_models(s: Seq<RouteDecl>) -> Seq<RouteDeclModel> {
    s.map_values(|d: RouteDecl| d@)
}

/// The request method a bare marker ident names, if any.
pub open spec fn method_of_ident(s: Seq<char>) -> Option<HttpMethod> {
    if s == "get"@ {
        Some(HttpMethod::Get)
    } else if s == "post"@ {
        Some(HttpMethod::Post)
    } else if s == "put"@ {
        Some(HttpMethod::Put)
    } else if s == "delete"@ {
        Some(HttpMethod::Delete)
    } else if s == "head"@ {
        Some(HttpMethod::Head)
    } else if s == "connect"@ {
        Some(HttpMethod::Connect)
    } else if s == "options"@ {
        Some(HttpMethod::Options)
    } else if s == "trace"@ {
        Some(HttpMethod::Trace)
    } else if s == "patch"@ {
        Some(HttpMethod::Patch)
    } else {
        None
    }
}

/// The method a marker's path names: one bare segment equal to one of the
/// nine method names, or the segment after the recognized framework prefix;
/// both are matched by ordinary equality.
pub open spec fn marker_method(segs: Seq<Seq<char>>) -> Option<HttpMethod> {
    if segs.len() == 1 {
        method_of_ident(segs[0])
    } else if segs.len() == 2 && segs[0] == "actix_web"@ {
        method_of_ident(segs[1])
    } else {
        None
    }
}

/// The method and path one marker contributes, if it names a method and
/// carries a string-literal argument.
pub open spec fn marker_route(m: MarkerModel) -> Option<(HttpMethod, Seq<char>)> {
    match marker_method(m.segments) {
        Some(meth) => match m.arg {
            Some(p) => Some((meth, p)),
            None => None,
        },
        None => None,
    }
}

/// The route a marker list yields: of the markers that yield one, the last
/// wins.
pub open spec fn route_of_markers(ms: Seq<MarkerModel>) -> Option<(HttpMethod, Seq<char>)>
    decreases ms.len(),
{
    if ms.len() == 0 {
        None
    } else {
        match marker_route(ms.last()) {
            Some(r) => Some(r),
            None => route_of_markers(ms.drop_last()),
        }
    }
}

/// Decides which request method a marker ident names.
pub fn method_of_str(s: &str) -> (r: Option<HttpMethod>)
    ensures
        r == method_of_ident(s@),
{
    if str_eq(s, "get") {
        Some(HttpMethod::Get)
    } else if str_eq(s, "post") {
        Some(HttpMethod::Post)
    } else if str_eq(s, "put") {
        Some(HttpMethod::Put)
    } else if str_eq(s, "delete") {
        Some(HttpMethod::Delete)
    } else if str_eq(s, "head") {
        Some(HttpMethod::Head)
    } else if str_eq(s, "connect") {
        Some(HttpMethod::Connect)
    } else if str_eq(s, "options") {
        Some(HttpMethod::Options)
    } else if str_eq(s, "trace") {
        Some(HttpMethod::Trace)
    } else if str_eq(s, "patch") {
        Some(HttpMethod::Patch)
    } else {
        None
    }
}

/// Decides which request method a marker's path names.
pub fn marker_method_of(segments: &Vec<String>) -> (r: Option<HttpMethod>)
    ensures
        r == marker_method(segments.deep_view()),
{
    if segments.len() == 1 {
        proof {
            assert(segments.deep_view()[0] == segments@[0]@);
        }
        method_of_str(segments[0].as_str())
    } else if segments.len() == 2 && str_eq(segments[0].as_str(), "actix_web") {
        proof {
            assert(segments.deep_view()[0] == segments@[0]@);
            assert(segments.deep_view()[1] == segments@[1]@);
        }
        method_of_str(segments[1].as_str())
    } else {
        None
    }
}

/// The route a marker list yields, scanning forward so that a later marker
/// overwrites an earlier one.
pub fn route_of_marker_list(ms: &Vec<SrcMarker>) -> (r: Option<(HttpMethod, String)>)
    ensures
        (match r {
            Some(p) => route_of_markers(marker_models_of(ms@)) == Some((p.0, p.1@)),
            None => route_of_markers(marker_models_of(ms@)) is None,
        }),
{
    let ghost models = marker_models_of(ms@);
    let mut cur: Option<(HttpMethod, String)> = None;
    let mut i: usize = 0;
    proof {
        assert(models.take(0) =~= Seq::<MarkerModel>::empty());
    }
    while i < ms.len()
        invariant
            i <= ms.len(),
            models == marker_models_of(ms@),
            models.len() == ms.len(),
            (match cur {
                Some(p) => route_of_markers(models.take(i as int)) == Some((p.0, p.1@)),
                None => route_of_markers(models.take(i as int)) is None,
            }),
        decreases ms.len() - i,
    {
        let meth = marker_method_of(&ms[i].segments);
        let ghost mi = models[i as int];
        proof {
            assert(mi == marker_model_of(ms@[i as int]));
            assert(mi.segments == ms@[i as int].segments.deep_view());
        }
        match meth {
            Some(method) => {
                match &ms[i].arg {
                    Some(p) => {
                        let path = p.clone();
                        proof {
                            assert(ms@[i as int].arg == Some(*p));
                            assert(mi.arg == Some(p@));
                            assert(marker_route(mi) == Some((method, path@)));
                        }
                        cur = Some((method, path));
                    },
                    None => {
                        proof {
                            assert(mi.arg is None);
                            assert(marker_route(mi) is None);
                        }
                    },
                }
            },
            None => {
                proof {
                    assert(marker_route(mi) is None);
                }
            },
        }
        proof {
            assert(models.take(i + 1).drop_last() =~= models.take(i as int));
            assert(models.take(i + 1).last() == mi);
        }
        i = i + 1;
    }
    proof {
        assert(models.take(ms.len() as int) =~= models);
    }
    cur
}

// ---------------------------------------------------------------------------
// Module paths.
// ---------------------------------------------------------------------------

/// The module-path segments that appear in generated code: the root marker
/// and the directory-module file name are dropped.
pub open spec fn visible_path(stack: Seq<Seq<char>>) -> Seq<Seq<char>> {
    stack.filter(|s: Seq<char>| s != "crate"@ && s != "mod"@)
}

/// The module stack after entering a nested module: the module's name, or
/// the name twice when the file's base name equals it and the doubling rule
/// is on.
pub open spec fn module_stack(
    stack: Seq<Seq<char>>,
    stem: Seq<char>,
    name: Seq<char>,
    double: bool,
) -> Seq<Seq<char>> {
    if double && stem == name {
        stack.push(name).push(name)
    } else {
        stack.push(name)
    }
}

// ---------------------------------------------------------------------------
// The walk over a file's items.
// ---------------------------------------------------------------------------

pub open spec fn routes_of_item(
    item: ItemModel,
    stack: Seq<Seq<char>>,
    stem: Seq<char>,
    double: bool,
) -> Seq<RouteDeclModel>
    decreases item,
{
    match item {
        ItemModel::Func { name, markers } => match route_of_markers(markers) {
            Some(r) => seq![
                RouteDeclModel {
                    name: name,
                    method: r.0,
                    route_path: r.1,
                    mod_path: visible_path(stack),
                },
            ],
            None => Seq::empty(),
        },
        ItemModel::Module { name, items } => routes_of_items(
            items,
            module_stack(stack, stem, name, double),
            stem,
            double,
        ),
        ItemModel::Opaque => Seq::empty(),
    }
}

pub open spec fn routes_of_items(
    items: Seq<ItemModel>,
    stack: Seq<Seq<char>>,
    stem: Seq<char>,
    double: bool,
) -> Seq<RouteDeclModel>
    decreases items,
{
    if items.len() == 0 {
        Seq::empty()
    } else {
        routes_of_item(items[0], stack, stem, double) + routes_of_items(
            items.drop_first(),
            stack,
            stem,
            double,
        )
    }
}

/// Appends the declarations of `items[i..]` to `out`.
fn extract_items_into(
    items: &Vec<SrcItem>,
    i: usize,
    stack: &Vec<String>,
    stem: &String,
    double: bool,
    out: &mut Vec<RouteDecl>,
)
    requires
        i <= items.len(),
    ensures
        decl_models(final(out)@) == decl_models(old(out)@) + routes_of_items(
            item_models_of(items@).skip(i as int),
            stack.deep_view(),
            stem@,
            double,
        ),
    decreases items@.skip(i as int),
{
    proof {
        lemma_item_models_of_len(items@);
    }
    if i == items.len() {
        proof {
            assert(item_models_of(items@).skip(i as int) =~= Seq::<ItemModel>::empty());
            assert(decl_models(out@) =~= decl_models(out@) + routes_of_items(
                item_models_of(items@).skip(i as int),
                stack.deep_view(),
                stem@,
                double,
            ));
        }
    } else {
        let ghost pre = out@;
        proof {
            assert(items@.skip(i as int)[0] == items@[i as int]);
        }
        extract_item_into(&items[i], stack, stem, double, out);
        let ghost mid = out@;
        proof {
            assert(items@.skip(i as int).drop_first() =~= items@.skip(i + 1));
        }
        extract_items_into(items, i + 1, stack, stem, double, out);
        proof {
            let ms = item_models_of(items@);
            assert(ms.skip(i as int)[0] == ms[i as int]);
            assert(ms[i as int] == item_model_of(items@[i as int]));
            assert(ms.skip(i as int).drop_first() =~= ms.skip(i + 1));
            assert(routes_of_items(ms.skip(i as int), stack.deep_view(), stem@, double)
                == routes_of_item(ms[i as int], stack.deep_view(), stem@, double)
                + routes_of_items(ms.skip(i + 1), stack.deep_view(), stem@, double));
            assert(decl_models(out@) =~= decl_models(pre) + routes_of_items(
                ms.skip(i as int),
                stack.deep_view(),
                stem@,
                double,
            ));
        }
    }
}

/// Appends the declarations of one item to `out`.
fn extract_item_into(
    item: &SrcItem,
    stack: &Vec<String>,
    stem: &String,
    double: bool,
    out: &mut Vec<RouteDecl>,
)
    ensures
        decl_models(final(out)@) == decl_models(old(out)@) + routes_of_item(
            item_model_of(*item),
            stack.deep_view(),
            stem@,
            double,
        ),
    decreases *item,
{
    match item {
        SrcItem::Func { name, markers } => {
            let route = route_of_marker_list(markers);
            match route {
                Some(r) => {
                    let scope_segments = visible_path_of(stack);
                    let decl = RouteDecl {
                        name: name.clone(),
                        method: r.0,
                        route_path: r.1,
                        mod_path: scope_segments,
                    };
                    let ghost pre = out@;
                    out.push(decl);
                    proof {
                        assert(decl@ =~= (RouteDeclModel {
                            name: name@,
                            method: r.0,
                            route_path: r.1@,
                            mod_path: visible_path(stack.deep_view()),
                        }));
                        assert(routes_of_item(
                            item_model_of(*item),
                            stack.deep_view(),
                            stem@,
                            double,
                        ) =~= seq![decl@]);
                        assert(decl_models(out@) =~= decl_models(pre) + seq![decl@]);
                    }
                },
                None => {
                    proof {
                        assert(routes_of_item(item_model_of(*item), stack.deep_view(), stem@, double)
                            =~= Seq::<RouteDeclModel>::empty());
                        assert(decl_models(out@) =~= decl_models(out@) + Seq::<
                            RouteDeclModel,
                        >::empty());
                    }
                },
            }
        },
        SrcItem::Module { name, items } => {
            let mut inner_stack = crate::text::clone_string_vec(stack);
            let doubled = double && str_eq(stem.as_str(), name.as_str());
            if doubled {
                inner_stack.push(name.clone());
            }
            inner_stack.push(name.clone());
            proof {
                assert(inner_stack.deep_view() =~= module_stack(
                    stack.deep_view(),
                    stem@,
                    name@,
                    double,
                ));
                assert(items@.skip(0) =~= items@);
            }
            extract_items_into(items, 0, &inner_stack, stem, double, out);
            proof {
                assert(item_models_of(items@).skip(0) =~= item_models_of(items@));
                assert(routes_of_item(item_model_of(*item), stack.deep_view(), stem@, double)
                    == routes_of_items(
                    item_models_of(items@),
                    module_stack(stack.deep_view(), stem@, name@, double),
                    stem@,
                    double,
                ));
            }
        },
        SrcItem::Opaque => {
            proof {
                assert(decl_models(out@) =~= decl_models(out@) + Seq::<RouteDeclModel>::empty());
            }
        },
    }
}

/// The module-path segments of the current stack as they appear in
/// generated code.
pub fn visible_path_of(stack: &Vec<String>) -> (r: Vec<String>)
    ensures
        r.deep_view() == visible_path(stack.deep_view()),
{
    let mut out: Vec<String> = Vec::new();
    let mut i: usize = 0;
    proof {
        assert(stack.deep_view().take(0) =~= Seq::<Seq<char>>::empty());
        reveal(Seq::filter);
    }
    while i < stack.len()
        invariant
            i <= stack.len(),
            out.deep_view() == stack.deep_view().take(i as int).filter(
                |s: Seq<char>| s != "crate"@ && s != "mod"@,
            ),
        decreases stack.len() - i,
    {
        let keep = !str_eq(stack[i].as_str(), "crate") && !str_eq(stack[i].as_str(), "mod");
        let ghost pred = |s: Seq<char>| s != "crate"@ && s != "mod"@;
        let ghost prefix = stack.deep_view().take(i as int);
        proof {
            assert(stack.deep_view().take(i + 1).drop_last() =~= prefix);
            assert(stack.deep_view().take(i + 1).last() == stack.deep_view()[i as int]);
            reveal(Seq::filter);
            assert(stack.deep_view().take(i + 1).filter(pred) == if pred(
                stack.deep_view()[i as int],
            ) {
                prefix.filter(pred).push(stack.deep_view()[i as int])
            } else {
                prefix.filter(pred)
            });
            assert(stack.deep_view()[i as int] == stack@[i as int]@);
        }
        if keep {
            let ghost preout = out.deep_view();
            out.push(stack[i].clone());
            proof {
                assert(out.deep_view() =~= preout.push(stack@[i as int]@));
            }
        }
        i = i + 1;
    }
    proof {
        assert(stack.deep_view().take(stack.len() as int) =~= stack.deep_view());
    }
    out
}

/// The declarations of a whole file's items, extracted under the given base
/// module stack.
pub fn extract_from_items(
    items: &Vec<SrcItem>,
    base_stack: &Vec<String>,
    stem: &String,
    double: bool,
) -> (r: Vec<RouteDecl>)
    ensures
        decl_models(r@) == routes_of_items(
            item_models_of(items@),
            base_stack.deep_view(),
            stem@,
            double,
        ),
{
    let mut out: Vec<RouteDecl> = Vec::new();
    proof {
        assert(items@.skip(0) =~= items@);
        assert(item_models_of(items@).skip(0) =~= item_models_of(items@));
        assert(decl_models(out@) =~= Seq::<RouteDeclModel>::empty());
    }
    extract_items_into(items, 0, base_stack, stem, double, &mut out);
    proof {
        assert(decl_models(out@) =~= routes_of_items(
            item_models_of(items@),
            base_stack.deep_view(),
            stem@,
            double,
        ));
    }
    out
}

// ---------------------------------------------------------------------------
// The base module stack of a file.
// ---------------------------------------------------------------------------

/// The module stack a file starts with: the project qualifier, the directory
/// segments (the bootstrap directory name dropped), and the file's base name
/// unless it is one of the two entry names.
pub open spec fn spec_file_stack(
    qualifier: Seq<char>,
    dirs: Seq<Seq<char>>,
    stem: Seq<char>,
) -> Seq<Seq<char>> {
    seq![qualifier] + dirs.filter(|d: Seq<char>| d != "main"@) + (if stem == "main"@ || stem
        == "lib"@ {
        Seq::<Seq<char>>::empty()
    } else {
        seq![stem]
    })
}

/// Builds the module stack a file starts with.
pub fn file_module_stack(qualifier: &String, dirs: &Vec<String>, stem: &String) -> (r: Vec<String>)
    ensures
        r.deep_view() == spec_file_stack(qualifier@, dirs.deep_view(), stem@),
{
    let mut out: Vec<String> = Vec::new();
    out.push(qualifier.clone());
    let ghost pred = |d: Seq<char>| d != "main"@;
    let mut i: usize = 0;
    proof {
        assert(dirs.deep_view().take(0) =~= Seq::<Seq<char>>::empty());
        reveal(Seq::filter);
        assert(out.deep_view() =~= seq![qualifier@] + dirs.deep_view().take(0).filter(pred));
    }
    while i < dirs.len()
        invariant
            i <= dirs.len(),
            out.deep_view() == seq![qualifier@] + dirs.deep_view().take(i as int).filter(
                |d: Seq<char>| d != "main"@,
            ),
        decreases dirs.len() - i,
    {
        let ghost prefix = dirs.deep_view().take(i as int);
        proof {
            assert(dirs.deep_view().take(i + 1).drop_last() =~= prefix);
            assert(dirs.deep_view().take(i + 1).last() == dirs.deep_view()[i as int]);
            reveal(Seq::filter);
            assert(dirs.deep_view().take(i + 1).filter(pred) == if pred(dirs.deep_view()[i as int]) {
                prefix.filter(pred).push(dirs.deep_view()[i as int])
            } else {
                prefix.filter(pred)
            });
            assert(dirs.deep_view()[i as int] == dirs@[i as int]@);
        }
        if !str_eq(dirs[i].as_str(), "main") {
            let ghost preout = out.deep_view();
            out.push(dirs[i].clone());
            proof {
                assert(out.deep_view() =~= preout.push(dirs@[i as int]@));
            }
        }
        i = i + 1;
    }
    proof {
        assert(dirs.deep_view().take(dirs.len() as int) =~= dirs.deep_view());
    }
    if !(str_eq(stem.as_str(), "main") || str_eq(stem.as_str(), "lib")) {
        let ghost preout = out.deep_view();
        out.push(stem.clone());
        proof {
            assert(out.deep_view() =~= preout.push(stem@));
            assert(out.deep_view() =~= spec_file_stack(qualifier@, dirs.deep_view(), stem@));
        }
    } else {
        proof {
            assert(out.deep_view() =~= spec_file_stack(qualifier@, dirs.deep_view(), stem@));
        }
    }
    out
}

// ---------------------------------------------------------------------------
// Whole-file extraction.
// ---------------------------------------------------------------------------

/// The declarations one file's text yields under the given context.
pub open spec fn spec_file_routes(
    t: Seq<char>,
    qualifier: Seq<char>,
    dirs: Seq<Seq<char>>,
    stem: Seq<char>,
    double: bool,
) -> Seq<RouteDeclModel> {
    routes_of_items(syn_ast(t), spec_file_stack(qualifier, dirs, stem), stem, double)
}

/// Parses one file's text and extracts its route declarations; fails exactly
/// when the parser rejects the text.
pub fn extract_file_routes(
    text: &str,
    qualifier: &String,
    dirs: &Vec<String>,
    stem: &String,
    double: bool,
) -> (r: Option<Vec<RouteDecl>>)
    ensures
        r is Some <==> syn_parses(text@),
        r matches Some(v) ==> decl_models(v@) == spec_file_routes(
            text@,
            qualifier@,
            dirs.deep_view(),
            stem@,
            double,
        ),
{
    match parse_source(text) {
        Some(items) => {
            let base = file_module_stack(qualifier, dirs, stem);
            let decls = extract_from_items(&items, &base, stem, double);
            Some(decls)
        },
        None => None,
    }
}

} // verus!
