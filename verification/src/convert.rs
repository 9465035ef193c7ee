use vstd::prelude::*;

use crate::ast::{
    attr_model, decompose_item, convert_attrs, item_model, item_model_of, item_models_of,
    lemma_item_models_of_push, parse_items, syn_ast, syn_attr_models, syn_item_models, syn_parses,
    ItemModel, ItemParts, SrcItem,
};

verus! {

// ---------------------------------------------------------------------------
// Turning the parser's item list into the crate's own `SrcItem` tree.
// Parsed items are opaque values, so the walk cannot recurse on their
// structure; it runs as a loop over a stack of frames, one frame per module
// whose contents are still being converted, and terminates because the
// total weight of the models still pending shrinks at every step.
// ---------------------------------------------------------------------------

/// One module (or the file's top level, for the bottom frame) whose items
/// are partly converted: `acc` holds the finished children, `items[idx..]`
/// the parsed items still to convert.
pub struct ConvFrame {
    pub name: String,
    pub items: Vec<syn::Item>,
    pub idx: usize,
    pub acc: Vec<SrcItem>,
}

pub open spec fn frame_wf(f: ConvFrame) -> bool {
    f.idx <= f.items@.len()
}

/// Models of the items of this frame that still wait for conversion.
pub open spec fn frame_pending(f: ConvFrame) -> Seq<ItemModel> {
    syn_item_models(f.items@).skip(f.idx as int)
}

/// Models of the items of this frame that are already converted.
pub open spec fn frame_done(f: ConvFrame) -> Seq<ItemModel> {
    item_models_of(f.acc@)
}

/// The item models this frame will eventually hand to its parent.
pub open spec fn frame_out(f: ConvFrame) -> Seq<ItemModel> {
    frame_done(f) + frame_pending(f)
}

/// The top-level models the whole stack will eventually produce, given that
/// the content above the frames in `s` collapses to `inner`, the output of a
/// module named `cname`.
pub open spec fn wrap(s: Seq<ConvFrame>, inner: Seq<ItemModel>, cname: Seq<char>) -> Seq<ItemModel>
    decreases s.len(),
{
    if s.len() == 0 {
        inner
    } else {
        wrap(
            s.drop_last(),
            frame_done(s.last()) + seq![ItemModel::Module { name: cname, items: inner }]
                + frame_pending(s.last()),
            s.last().name@,
        )
    }
}

/// The top-level models the whole stack will eventually produce. The bottom
/// frame's name is never read: the bottom frame stands for the file itself,
/// not for a module.
pub open spec fn collapse(s: Seq<ConvFrame>) -> Seq<ItemModel> {
    if s.len() == 0 {
        Seq::empty()
    } else {
        wrap(s.drop_last(), frame_out(s.last()), s.last().name@)
    }
}

/// Weight of one item model: enough loop steps to convert it.
pub open spec fn model_weight(m: ItemModel) -> nat
    decreases m,
{
    match m {
        ItemModel::Module { name, items } => 2 + models_weight(items),
        _ => 1,
    }
}

pub open spec fn models_weight(s: Seq<ItemModel>) -> nat
    decreases s,
{
    if s.len() == 0 {
        0
    } else {
        model_weight(s[0]) + models_weight(s.drop_first())
    }
}

/// Loop steps left for the whole stack: one closing step per frame plus the
/// weight of everything still pending.
pub open spec fn stack_weight(s: Seq<ConvFrame>) -> nat
    decreases s.len(),
{
    if s.len() == 0 {
        0
    } else {
        stack_weight(s.drop_last()) + 1 + models_weight(frame_pending(s.last()))
    }
}

proof fn lemma_model_weight_pos(m: ItemModel)
    ensures
        model_weight(m) >= 1,
{
    match m {
        ItemModel::Module { name, items } => {},
        _ => {},
    }
}

/// Converts the parser's top-level item list into the crate's own items,
/// preserving the models exactly.
pub fn convert_items(items: Vec<syn::Item>) -> (out: Vec<SrcItem>)
    ensures
        item_models_of(out@) == syn_item_models(items@),
{
    let ghost goal: Seq<ItemModel> = syn_item_models(items@);
    let mut stack: Vec<ConvFrame> = Vec::new();
    stack.push(ConvFrame { name: String::new(), items, idx: 0, acc: Vec::new() });
    proof {
        let f0 = stack@[0];
        assert(frame_pending(f0) =~= goal);
        assert(frame_done(f0) =~= Seq::<ItemModel>::empty());
        assert(frame_out(f0) =~= goal);
        assert(stack@.drop_last() =~= Seq::<ConvFrame>::empty());
        assert(stack@.last() == f0);
        assert(collapse(stack@) == goal);
    }
    loop
        invariant
            stack@.len() >= 1,
            forall|i: int| 0 <= i < stack@.len() ==> frame_wf(#[trigger] stack@[i]),
            collapse(stack@) == goal,
            goal == syn_item_models(items@),
        decreases stack_weight(stack@),
    {
        let ghost ss = stack@;
        let ghost w0 = stack_weight(ss);
        let mut top = stack.pop().unwrap();
        proof {
            assert(top == ss.last());
            assert(stack@ == ss.drop_last());
        }
        if top.idx == top.items.len() {
            // every item of this frame is converted
            proof {
                assert(frame_pending(top) =~= Seq::<ItemModel>::empty());
                assert(frame_out(top) =~= frame_done(top));
            }
            if stack.len() == 0 {
                proof {
                    assert(ss.drop_last().len() == 0);
                    assert(collapse(ss) == frame_out(top));
                    assert(item_models_of(top.acc@) == syn_item_models(items@));
                }
                return top.acc;
            }
            let mut parent = stack.pop().unwrap();
            let ghost oldparent = parent;
            let ghost yy = ss.drop_last().drop_last();
            proof {
                assert(oldparent == ss.drop_last().last());
                assert(stack@ == yy);
            }
            let node = SrcItem::Module { name: top.name, items: top.acc };
            proof {
                assert(item_model_of(node) == (ItemModel::Module {
                    name: top.name@,
                    items: frame_done(top),
                }));
            }
            parent.acc.push(node);
            stack.push(parent);
            proof {
                let t = stack@;
                assert(t =~= yy.push(parent));
                assert(t.drop_last() =~= yy);
                assert(t.last() == parent);
                lemma_item_models_of_push(oldparent.acc@, node);
                assert(frame_done(parent) == frame_done(oldparent).push(item_model_of(node)));
                assert(frame_pending(parent) == frame_pending(oldparent));
                // the two wrap arguments agree
                assert(frame_out(parent) =~= frame_done(oldparent) + seq![
                    ItemModel::Module { name: top.name@, items: frame_done(top) },
                ] + frame_pending(oldparent));
                assert(ss.drop_last() =~= yy.push(oldparent));
                assert(ss.drop_last().drop_last() =~= yy);
                assert(ss.drop_last().last() == oldparent);
                assert(collapse(ss) == wrap(ss.drop_last(), frame_out(top), top.name@));
                assert(wrap(ss.drop_last(), frame_out(top), top.name@) == wrap(
                    yy,
                    frame_done(oldparent) + seq![
                        ItemModel::Module { name: top.name@, items: frame_out(top) },
                    ] + frame_pending(oldparent),
                    oldparent.name@,
                ));
                assert(frame_out(top) == frame_done(top));
                assert(collapse(t) == wrap(yy, frame_out(parent), parent.name@));
                assert(collapse(t) == goal);
                // the weight shrinks by the closing step of the finished frame
                assert(models_weight(frame_pending(top)) == 0);
                assert(stack_weight(ss) == stack_weight(ss.drop_last()) + 1);
                assert(stack_weight(ss.drop_last()) == stack_weight(yy) + 1 + models_weight(
                    frame_pending(oldparent),
                ));
                assert(stack_weight(t) == stack_weight(yy) + 1 + models_weight(
                    frame_pending(parent),
                ));
                assert(stack_weight(t) < w0);
            }
        } else {
            let ghost pend0 = frame_pending(top);
            let ghost m = syn_item_models(top.items@)[top.idx as int];
            let parts = decompose_item(&top.items[top.idx]);
            proof {
                assert(top.items@[top.idx as int] == top.items@.index(top.idx as int));
                assert(item_model(top.items@[top.idx as int]) == m);
                assert(pend0[0] == m);
                assert(pend0.drop_first() =~= syn_item_models(top.items@).skip(top.idx + 1));
                assert(pend0 =~= seq![m] + pend0.drop_first());
                assert(models_weight(pend0) == model_weight(m) + models_weight(pend0.drop_first()));
            }
            let ghost oldtop = top;
            top.idx = top.idx + 1;
            match parts {
                ItemParts::Func { name, attrs } => {
                    let markers = convert_attrs(&attrs);
                    let node = SrcItem::Func { name, markers };
                    proof {
                        assert(item_model_of(node) =~= m);
                    }
                    let ghost oldacc = top.acc@;
                    top.acc.push(node);
                    stack.push(top);
                    proof {
                        lemma_item_models_of_push(oldacc, node);
                        lemma_plain_step(ss, stack@, oldtop, top, m);
                        lemma_model_weight_pos(m);
                        assert(collapse(stack@) == goal);
                        assert(stack_weight(stack@) < w0);
                    }
                }
                ItemParts::Module { name, children } => {
                    let ghost childitems = children@;
                    let child = ConvFrame { name, items: children, idx: 0, acc: Vec::new() };
                    stack.push(top);
                    stack.push(child);
                    proof {
                        lemma_expand_step(ss, stack@, oldtop, top, child, m);
                        assert(collapse(stack@) == goal);
                        assert(stack_weight(stack@) < w0);
                    }
                }
                ItemParts::Opaque => {
                    let node = SrcItem::Opaque;
                    proof {
                        assert(item_model_of(node) =~= m);
                    }
                    let ghost oldacc = top.acc@;
                    top.acc.push(node);
                    stack.push(top);
                    proof {
                        lemma_item_models_of_push(oldacc, node);
                        lemma_plain_step(ss, stack@, oldtop, top, m);
                        lemma_model_weight_pos(m);
                        assert(collapse(stack@) == goal);
                        assert(stack_weight(stack@) < w0);
                    }
                }
            }
        }
    }
}

/// One plain item of the top frame was converted: the frame advances by one
/// item whose model moved from pending to done; the stack's meaning is
/// unchanged and its weight shrinks.
proof fn lemma_plain_step(
    ss: Seq<ConvFrame>,
    tt: Seq<ConvFrame>,
    oldtop: ConvFrame,
    newtop: ConvFrame,
    m: ItemModel,
)
    requires
        ss.len() >= 1,
        oldtop == ss.last(),
        frame_wf(oldtop),
        oldtop.idx < oldtop.items@.len(),
        m == syn_item_models(oldtop.items@)[oldtop.idx as int],
        newtop.name == oldtop.name,
        newtop.items == oldtop.items,
        newtop.idx == oldtop.idx + 1,
        frame_done(newtop) == frame_done(oldtop).push(m),
        tt =~= ss.drop_last().push(newtop),
    ensures
        collapse(tt) == collapse(ss),
        stack_weight(tt) + model_weight(m) == stack_weight(ss),
{
    assert(tt.drop_last() =~= ss.drop_last());
    assert(tt.last() == newtop);
    assert(frame_pending(oldtop).drop_first() =~= syn_item_models(oldtop.items@).skip(
        oldtop.idx + 1,
    ));
    assert(frame_pending(newtop) == frame_pending(oldtop).drop_first());
    assert(frame_pending(oldtop)[0] == m);
    assert(frame_pending(oldtop) =~= seq![m] + frame_pending(newtop));
    assert(frame_out(newtop) =~= frame_out(oldtop));
    assert(collapse(tt) == wrap(ss.drop_last(), frame_out(newtop), newtop.name@));
    assert(collapse(ss) == wrap(ss.drop_last(), frame_out(oldtop), oldtop.name@));
    assert(models_weight(frame_pending(oldtop)) == model_weight(m) + models_weight(
        frame_pending(newtop),
    ));
    assert(stack_weight(ss) == stack_weight(ss.drop_last()) + 1 + models_weight(
        frame_pending(oldtop),
    ));
    assert(stack_weight(tt) == stack_weight(ss.drop_last()) + 1 + models_weight(
        frame_pending(newtop),
    ));
}

/// A module item of the top frame was opened: the frame advances past the
/// module and a fresh frame for the module's items is pushed; the stack's
/// meaning is unchanged and its weight shrinks by one.
proof fn lemma_expand_step(
    ss: Seq<ConvFrame>,
    tt: Seq<ConvFrame>,
    oldtop: ConvFrame,
    newtop: ConvFrame,
    child: ConvFrame,
    m: ItemModel,
)
    requires
        ss.len() >= 1,
        oldtop == ss.last(),
        frame_wf(oldtop),
        oldtop.idx < oldtop.items@.len(),
        m == syn_item_models(oldtop.items@)[oldtop.idx as int],
        m == (ItemModel::Module { name: child.name@, items: syn_item_models(child.items@) }),
        newtop.name == oldtop.name,
        newtop.items == oldtop.items,
        newtop.idx == oldtop.idx + 1,
        newtop.acc == oldtop.acc,
        child.idx == 0,
        child.acc@ =~= Seq::<SrcItem>::empty(),
        tt =~= ss.drop_last().push(newtop).push(child),
    ensures
        collapse(tt) == collapse(ss),
        stack_weight(tt) + 1 == stack_weight(ss),
{
    let mid = ss.drop_last().push(newtop);
    assert(tt.drop_last() =~= mid);
    assert(tt.last() == child);
    assert(frame_done(child) =~= Seq::<ItemModel>::empty());
    assert(frame_pending(child) =~= syn_item_models(child.items@));
    assert(frame_out(child) =~= syn_item_models(child.items@));
    assert(collapse(tt) == wrap(mid, frame_out(child), child.name@));
    assert(mid.drop_last() =~= ss.drop_last());
    assert(mid.last() == newtop);
    // one unfolding of wrap over `mid`
    assert(wrap(mid, frame_out(child), child.name@) == wrap(
        ss.drop_last(),
        frame_done(newtop) + seq![
            ItemModel::Module { name: child.name@, items: frame_out(child) },
        ] + frame_pending(newtop),
        newtop.name@,
    ));
    assert(frame_pending(oldtop).drop_first() =~= syn_item_models(oldtop.items@).skip(
        oldtop.idx + 1,
    ));
    assert(frame_pending(newtop) == frame_pending(oldtop).drop_first());
    assert(frame_pending(oldtop)[0] == m);
    assert(frame_pending(oldtop) =~= seq![m] + frame_pending(newtop));
    assert((ItemModel::Module { name: child.name@, items: frame_out(child) }) =~= m);
    assert(frame_done(newtop) + seq![
        ItemModel::Module { name: child.name@, items: frame_out(child) },
    ] + frame_pending(newtop) =~= frame_out(oldtop));
    assert(collapse(ss) == wrap(ss.drop_last(), frame_out(oldtop), oldtop.name@));
    // weight
    assert(models_weight(frame_pending(oldtop)) == model_weight(m) + models_weight(
        frame_pending(newtop),
    ));
    assert(model_weight(m) == 2 + models_weight(syn_item_models(child.items@)));
    assert(stack_weight(ss) == stack_weight(ss.drop_last()) + 1 + models_weight(
        frame_pending(oldtop),
    ));
    assert(stack_weight(mid) == stack_weight(ss.drop_last()) + 1 + models_weight(
        frame_pending(newtop),
    ));
    assert(stack_weight(tt) == stack_weight(mid) + 1 + models_weight(frame_pending(child)));
    assert(models_weight(frame_pending(child)) == models_weight(syn_item_models(child.items@)));
}

/// Parses one file's text and hands back the crate's own rendering of its
/// items; fails exactly when the parser rejects the text.
pub fn parse_source(text: &str) -> (r: Option<Vec<SrcItem>>)
    ensures
        r is Some <==> syn_parses(text@),
        r matches Some(v) ==> item_models_of(v@) == syn_ast(text@),
{
    match parse_items(text) {
        Some(items) => Some(convert_items(items)),
        None => None,
    }
}

} // verus!
