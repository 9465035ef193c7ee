use vstd::prelude::*;

verus! {

// ---------------------------------------------------------------------------
// Mathematical model of the part of a parsed source file that this crate
// reads: functions with their attribute markers, nested modules, and
// everything else as opaque items.
// ---------------------------------------------------------------------------

/// Model of one attribute marker: its path segments and its string-literal
/// argument, if it has exactly one.
#[verifier::ext_equal]
pub ghost struct MarkerModel {
    pub segments: Seq<Seq<char>>,
    pub arg: Option<Seq<char>>,
}

/// Model of one top-level or module-nested item.
#[verifier::ext_equal]
pub ghost enum ItemModel {
    Func { name: Seq<char>, markers: Seq<MarkerModel> },
    Module { name: Seq<char>, items: Seq<ItemModel> },
    Opaque,
}

// ---------------------------------------------------------------------------
// The outside parser. `syn::Item` and `syn::Attribute` are opaque values;
// the names below stand for their contents, and the wrappers' contracts tie
// the values handed out to those names.
// ---------------------------------------------------------------------------

#[verifier::external_type_specification]
#[verifier::external_body]
pub struct ExSynItem(syn::Item);

#[verifier::external_type_specification]
#[verifier::external_body]
pub struct ExSynAttribute(syn::Attribute);

/// Whether `syn::parse_file` accepts this text; it depends on the text alone.
pub uninterp spec fn syn_parses(t: Seq<char>) -> bool;

/// The models of the top-level items that `syn::parse_file` yields for this
/// text; it depends on the text alone.
pub uninterp spec fn syn_ast(t: Seq<char>) -> Seq<ItemModel>;

/// The model of one parsed item.
pub uninterp spec fn item_model(i: syn::Item) -> ItemModel;

/// The model of one parsed attribute.
pub uninterp spec fn attr_model(a: syn::Attribute) -> MarkerModel;

/// The models of a sequence of parsed items.
pub open spec fn syn_item_models(its: Seq<syn::Item>) -> Seq<ItemModel> {
    its.map_values(|i: syn::Item| item_model(i))
}

/// The models of a sequence of parsed attributes.
pub open spec fn syn_attr_models(ats: Seq<syn::Attribute>) -> Seq<MarkerModel> {
    ats.map_values(|a: syn::Attribute| attr_model(a))
}

/// Relies on `syn::parse_file`: it parses the text of one source file into
/// its top-level items, or fails; the outcome depends on the text alone.
#[verifier::external_body]
pub(crate) fn parse_items(text: &str) -> (r: Option<Vec<syn::Item>>)
    ensures
        r is Some <==> syn_parses(text@),
        r matches Some(v) ==> syn_item_models(v@) == syn_ast(text@),
{
    match syn::parse_file(text) {
        Ok(f) => Some(f.items),
        Err(_) => None,
    }
}

/// What one parsed item decomposes into: a function's name and attributes, a
/// module's name and contained items, or nothing for any other item kind.
pub enum ItemParts {
    Func { name: String, attrs: Vec<syn::Attribute> },
    Module { name: String, children: Vec<syn::Item> },
    Opaque,
}

/// Relies on `syn::Item`: telling the function and module variants apart and
/// moving out their name, attribute list and content. A module without a
/// body (a bare declaration) yields no contained items.
#[verifier::external_body]
pub(crate) fn decompose_item(item: &syn::Item) -> (r: ItemParts)
    ensures
        (match r {
            ItemParts::Func { name, attrs } => item_model(*item) == (ItemModel::Func {
                name: name@,
                markers: syn_attr_models(attrs@),
            }),
            ItemParts::Module { name, children } => item_model(*item) == (ItemModel::Module {
                name: name@,
                items: syn_item_models(children@),
            }),
            ItemParts::Opaque => item_model(*item) == ItemModel::Opaque,
        }),
{
    match item {
        syn::Item::Fn(f) => ItemParts::Func {
            name: f.sig.ident.to_string(),
            attrs: f.attrs.clone(),
        },
        syn::Item::Mod(m) => ItemParts::Module {
            name: m.ident.to_string(),
            children: match &m.content {
                Some((_, items)) => items.clone(),
                None => Vec::new(),
            },
        },
        _ => ItemParts::Opaque,
    }
}

/// Relies on `syn::Attribute::path`: the attribute's path, one string per
/// segment.
#[verifier::external_body]
pub(crate) fn attr_path_segments(attr: &syn::Attribute) -> (r: Vec<String>)
    ensures
        r.deep_view() == attr_model(*attr).segments,
{
    attr.path().segments.iter().map(|s| s.ident.to_string()).collect()
}

/// Relies on `syn::Attribute::parse_args::<syn::LitStr>`: the single
/// string-literal argument of the attribute, if it has exactly one.
#[verifier::external_body]
pub(crate) fn attr_string_arg(attr: &syn::Attribute) -> (r: Option<String>)
    ensures
        r matches Some(s) ==> attr_model(*attr).arg == Some(s@),
        r is None ==> attr_model(*attr).arg is None,
{
    attr.parse_args::<syn::LitStr>().ok().map(|l| l.value())
}

// ---------------------------------------------------------------------------
// The crate's own plain rendering of parsed items, produced once per file and
// then handled by verified code only.
// ---------------------------------------------------------------------------

/// One attribute marker: path segments and optional string-literal argument.
pub struct SrcMarker {
    pub segments: Vec<String>,
    pub arg: Option<String>,
}

/// One item of a source file, reduced to what route discovery reads.
pub enum SrcItem {
    Func { name: String, markers: Vec<SrcMarker> },
    Module { name: String, items: Vec<SrcItem> },
    Opaque,
}

pub open spec fn marker_model_of(m: SrcMarker) -> MarkerModel {
    MarkerModel {
        segments: m.segments.deep_view(),
        arg: match m.arg {
            Some(s) => Some(s@),
            None => None,
        },
    }
}

pub open spec fn marker_models_of(ms: Seq<SrcMarker>) -> Seq<MarkerModel> {
    ms.map_values(|m: SrcMarker| marker_model_of(m))
}

pub open spec fn item_model_of(it: SrcItem) -> ItemModel
    decreases it,
{
    match it {
        SrcItem::Func { name, markers } => ItemModel::Func {
            name: name@,
            markers: marker_models_of(markers@),
        },
        SrcItem::Module { name, items } => ItemModel::Module {
            name: name@,
            items: item_models_of(items@),
        },
        SrcItem::Opaque => ItemModel::Opaque,
    }
}

pub open spec fn item_models_of(its: Seq<SrcItem>) -> Seq<ItemModel>
    decreases its,
{
    if its.len() == 0 {
        Seq::empty()
    } else {
        seq![item_model_of(its[0])] + item_models_of(its.drop_first())
    }
}

pub proof fn lemma_item_models_of_len(its: Seq<SrcItem>)
    ensures
        item_models_of(its).len() == its.len(),
        forall|i: int| 0 <= i < its.len() ==> item_models_of(its)[i] == item_model_of(#[trigger] its[i]),
    decreases its.len(),
{
    if its.len() > 0 {
        lemma_item_models_of_len(its.drop_first());
        assert forall|i: int| 0 <= i < its.len() implies item_models_of(its)[i] == item_model_of(
            its[i],
        ) by {
            if i > 0 {
                assert(item_models_of(its)[i] == item_models_of(its.drop_first())[i - 1]);
                assert(its.drop_first()[i - 1] == its[i]);
            }
        }
    }
}

pub proof fn lemma_item_models_of_push(its: Seq<SrcItem>, x: SrcItem)
    ensures
        item_models_of(its.push(x)) == item_models_of(its).push(item_model_of(x)),
{
    lemma_item_models_of_len(its);
    lemma_item_models_of_len(its.push(x));
    assert forall|i: int| 0 <= i < its.len() + 1 implies item_models_of(its.push(x))[i]
        == item_models_of(its).push(item_model_of(x))[i] by {
        if i < its.len() {
            assert(its.push(x)[i] == its[i]);
        } else {
            assert(its.push(x)[i] == x);
        }
    }
    assert(item_models_of(its.push(x)) =~= item_models_of(its).push(item_model_of(x)));
}

/// Converts a parsed attribute list into the crate's own markers.
pub fn convert_attrs(attrs: &Vec<syn::Attribute>) -> (r: Vec<SrcMarker>)
    ensures
        marker_models_of(r@) == syn_attr_models(attrs@),
{
    let mut out: Vec<SrcMarker> = Vec::new();
    let mut i: usize = 0;
    while i < attrs.len()
        invariant
            i <= attrs.len(),
            marker_models_of(out@) =~= syn_attr_models(attrs@.take(i as int)),
        decreases attrs.len() - i,
    {
        let segments = attr_path_segments(&attrs[i]);
        let arg = attr_string_arg(&attrs[i]);
        let m = SrcMarker { segments, arg };
        proof {
            assert(marker_model_of(m) =~= attr_model(attrs@[i as int]));
        }
        let ghost pre = out@;
        out.push(m);
        proof {
            assert(marker_models_of(pre).len() == pre.len());
            assert(syn_attr_models(attrs@.take(i as int)).len() == i);
            assert(pre.len() == i);
            assert(out@ == pre.push(m));
            assert(out@.len() == i + 1);
            assert forall|j: int| 0 <= j < i + 1 implies marker_models_of(out@)[j]
                == syn_attr_models(attrs@.take(i + 1))[j] by {
                assert(attrs@.take(i + 1)[j] == attrs@[j]);
                if j < i {
                    assert(out@[j] == pre[j]);
                    assert(marker_models_of(pre)[j] == syn_attr_models(attrs@.take(i as int))[j]);
                    assert(attrs@.take(i as int)[j] == attrs@[j]);
                } else {
                    assert(out@[j] == m);
                }
            }
            assert(marker_models_of(out@) =~= syn_attr_models(attrs@.take(i + 1)));
        }
        i = i + 1;
    }
    proof {
        assert(attrs@.take(attrs.len() as int) =~= attrs@);
        assert(marker_models_of(out@) =~= syn_attr_models(attrs@));
    }
    out
}

} // verus!
