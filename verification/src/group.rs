use vstd::multiset::Multiset;
use vstd::prelude::*;
use vstd::relations::{sorted_by, total_ordering};
use vstd::seq_lib::lemma_multiset_commutative;
use vstd::seq_lib::lemma_sorted_unique;

use crate::extract::{decl_models, RouteDecl, RouteDeclModel};
use crate::text::{
    chars_le, clone_string_vec, lemma_chars_le_antisymmetric, lemma_chars_le_connected,
    lemma_chars_le_transitive, lemma_strs_le_antisymmetric, lemma_strs_le_connected,
    lemma_strs_le_transitive, str_eq, str_le, string_vec_eq, string_vec_le, strs_le,
};

verus! {

// ---------------------------------------------------------------------------
// The deterministic order on route declarations: module path, then name,
// then route path, then method. It is total, so sorting by it restores one
// canonical order whatever order scanning produced.
// ---------------------------------------------------------------------------

pub open spec fn decl_le(a: RouteDeclModel, b: RouteDeclModel) -> bool {
    if a.mod_path != b.mod_path {
        strs_le(a.mod_path, b.mod_path)
    } else if a.name != b.name {
        chars_le(a.name, b.name)
    } else if a.route_path != b.route_path {
        chars_le(a.route_path, b.route_path)
    } else {
        a.method.rank() <= b.method.rank()
    }
}

/// The order as a relation value, as the sorting lemmas want it.
pub open spec fn decl_order() -> spec_fn(RouteDeclModel, RouteDeclModel) -> bool {
    |a: RouteDeclModel, b: RouteDeclModel| decl_le(a, b)
}

pub proof fn lemma_decl_le_antisymmetric(a: RouteDeclModel, b: RouteDeclModel)
    requires
        decl_le(a, b),
        decl_le(b, a),
    ensures
        a == b,
{
    if a.mod_path != b.mod_path {
        lemma_strs_le_antisymmetric(a.mod_path, b.mod_path);
    } else if a.name != b.name {
        lemma_chars_le_antisymmetric(a.name, b.name);
    } else if a.route_path != b.route_path {
        lemma_chars_le_antisymmetric(a.route_path, b.route_path);
    } else {
        assert(a.method.rank() == b.method.rank());
        assert(a.method == b.method);
        assert(a =~= b);
    }
}

pub proof fn lemma_decl_le_transitive(a: RouteDeclModel, b: RouteDeclModel, c: RouteDeclModel)
    requires
        decl_le(a, b),
        decl_le(b, c),
    ensures
        decl_le(a, c),
{
    if a.mod_path != b.mod_path && b.mod_path != c.mod_path {
        lemma_strs_le_transitive(a.mod_path, b.mod_path, c.mod_path);
        if a.mod_path == c.mod_path {
            lemma_strs_le_antisymmetric(a.mod_path, b.mod_path);
        }
    } else if a.mod_path != b.mod_path {
        assert(b.mod_path == c.mod_path);
        assert(a.mod_path != c.mod_path);
    } else if b.mod_path != c.mod_path {
        assert(a.mod_path != c.mod_path);
    } else {
        assert(a.mod_path == c.mod_path);
        if a.name != b.name && b.name != c.name {
            lemma_chars_le_transitive(a.name, b.name, c.name);
            if a.name == c.name {
                lemma_chars_le_antisymmetric(a.name, b.name);
            }
        } else if a.name != b.name {
            assert(a.name != c.name);
        } else if b.name != c.name {
            assert(a.name != c.name);
        } else {
            assert(a.name == c.name);
            if a.route_path != b.route_path && b.route_path != c.route_path {
                lemma_chars_le_transitive(a.route_path, b.route_path, c.route_path);
                if a.route_path == c.route_path {
                    lemma_chars_le_antisymmetric(a.route_path, b.route_path);
                }
            } else if a.route_path != b.route_path {
                assert(a.route_path != c.route_path);
            } else if b.route_path != c.route_path {
                assert(a.route_path != c.route_path);
            } else {
            }
        }
    }
}

pub proof fn lemma_decl_le_connected(a: RouteDeclModel, b: RouteDeclModel)
    ensures
        decl_le(a, b) || decl_le(b, a),
{
    if a.mod_path != b.mod_path {
        lemma_strs_le_connected(a.mod_path, b.mod_path);
    } else if a.name != b.name {
        lemma_chars_le_connected(a.name, b.name);
    } else if a.route_path != b.route_path {
        lemma_chars_le_connected(a.route_path, b.route_path);
    } else {
    }
}

/// The declaration order is a total ordering.
pub proof fn lemma_decl_order_total()
    ensures
        total_ordering(decl_order()),
{
    let r = decl_order();
    assert forall|x: RouteDeclModel| #[trigger] r(x, x) by {
        lemma_decl_le_connected(x, x);
    }
    assert forall|x: RouteDeclModel, y: RouteDeclModel| #[trigger] r(x, y) && #[trigger] r(
        y,
        x,
    ) implies x == y by {
        lemma_decl_le_antisymmetric(x, y);
    }
    assert forall|x: RouteDeclModel, y: RouteDeclModel, z: RouteDeclModel|
        #[trigger] r(x, y) && #[trigger] r(y, z) implies r(x, z) by {
        lemma_decl_le_transitive(x, y, z);
    }
    assert forall|x: RouteDeclModel, y: RouteDeclModel| #[trigger] r(x, y) || #[trigger] r(
        y,
        x,
    ) by {
        lemma_decl_le_connected(x, y);
    }
}

/// Decides the declaration order.
pub fn decl_le_exec(a: &RouteDecl, b: &RouteDecl) -> (r: bool)
    ensures
        r == decl_le(a@, b@),
{
    if !string_vec_eq(&a.mod_path, &b.mod_path) {
        string_vec_le(&a.mod_path, &b.mod_path)
    } else if !str_eq(a.name.as_str(), b.name.as_str()) {
        str_le(a.name.as_str(), b.name.as_str())
    } else if !str_eq(a.route_path.as_str(), b.route_path.as_str()) {
        str_le(a.route_path.as_str(), b.route_path.as_str())
    } else {
        a.method.rank_val() <= b.method.rank_val()
    }
}

// ---------------------------------------------------------------------------
// Sorting.
// ---------------------------------------------------------------------------

/// Inserts `x` into a sorted vector, keeping it sorted.
fn insert_sorted(out: &mut Vec<RouteDecl>, x: RouteDecl)
    requires
        sorted_by(decl_models(old(out)@), decl_order()),
    ensures
        sorted_by(decl_models(final(out)@), decl_order()),
        decl_models(final(out)@).to_multiset() == decl_models(old(out)@).to_multiset().insert(x@),
{
    broadcast use vstd::seq_lib::group_to_multiset_ensures;
    broadcast use vstd::multiset::group_multiset_axioms;

    let ghost oldm = decl_models(out@);
    let mut j: usize = 0;
    while j < out.len() && decl_le_exec(&out[j], &x)
        invariant
            j <= out.len(),
            oldm == decl_models(out@),
            forall|k: int| 0 <= k < j ==> decl_le(#[trigger] oldm[k], x@),
        decreases out.len() - j,
    {
        proof {
            assert(oldm[j as int] == out@[j as int]@);
        }
        j = j + 1;
    }
    proof {
        if j < out@.len() {
            assert(!decl_le(oldm[j as int], x@));
            lemma_decl_le_connected(oldm[j as int], x@);
        }
    }
    out.insert(j, x);
    proof {
        let ord = decl_order();
        let newm = decl_models(out@);
        assert(out@ == old(out)@.insert(j as int, x));
        assert(newm =~= oldm.take(j as int).push(x@) + oldm.skip(j as int));
        assert forall|p: int, q: int| 0 <= p < q < newm.len() implies #[trigger] ord(
            newm[p],
            newm[q],
        ) by {
            let jj = j as int;
            if p < jj && q < jj {
                assert(newm[p] == oldm[p]);
                assert(newm[q] == oldm[q]);
                assert(ord(oldm[p], oldm[q]));
            } else if p < jj && q == jj {
                assert(newm[p] == oldm[p]);
                assert(newm[q] == x@);
                assert(decl_le(oldm[p], x@));
            } else if p < jj && q > jj {
                assert(newm[p] == oldm[p]);
                assert(newm[q] == oldm[q - 1]);
                if q - 1 == p {
                    lemma_decl_le_connected(oldm[p], oldm[p]);
                } else {
                    assert(ord(oldm[p], oldm[q - 1]));
                }
            } else if p == jj && q > jj {
                assert(newm[p] == x@);
                assert(newm[q] == oldm[q - 1]);
                assert(decl_le(x@, oldm[jj]));
                if q - 1 > jj {
                    assert(ord(oldm[jj], oldm[q - 1]));
                    lemma_decl_le_transitive(x@, oldm[jj], oldm[q - 1]);
                }
            } else {
                assert(p > jj);
                assert(newm[p] == oldm[p - 1]);
                assert(newm[q] == oldm[q - 1]);
                assert(ord(oldm[p - 1], oldm[q - 1]));
            }
        }
        assert(sorted_by(newm, decl_order()));
        // multiset preservation
        assert(oldm =~= oldm.take(j as int) + oldm.skip(j as int));
        lemma_multiset_commutative(oldm.take(j as int).push(x@), oldm.skip(j as int));
        lemma_multiset_commutative(oldm.take(j as int), oldm.skip(j as int));
        assert(oldm.take(j as int).push(x@).to_multiset() =~= oldm.take(
            j as int,
        ).to_multiset().insert(x@));
        assert(newm.to_multiset() =~= oldm.to_multiset().insert(x@));
    }
}

/// Sorts the declarations into the canonical order. The result is the one
/// sorted arrangement of the input's declarations, whatever order they came
/// in.
pub fn sort_decls(decls: Vec<RouteDecl>) -> (r: Vec<RouteDecl>)
    ensures
        decl_models(r@) == decl_models(decls@).sort_by(decl_order()),
        sorted_by(decl_models(r@), decl_order()),
        decl_models(r@).to_multiset() == decl_models(decls@).to_multiset(),
{
    broadcast use vstd::seq_lib::group_to_multiset_ensures;
    broadcast use vstd::multiset::group_multiset_axioms;

    let ghost origm = decl_models(decls@);
    let mut rest = decls;
    let mut out: Vec<RouteDecl> = Vec::new();
    proof {
        assert(decl_models(out@) =~= Seq::<RouteDeclModel>::empty());
        assert(decl_models(out@).to_multiset().add(decl_models(rest@).to_multiset())
            =~= origm.to_multiset());
    }
    while rest.len() > 0
        invariant
            sorted_by(decl_models(out@), decl_order()),
            decl_models(out@).to_multiset().add(decl_models(rest@).to_multiset())
                == origm.to_multiset(),
        decreases rest.len(),
    {
        broadcast use vstd::seq_lib::group_to_multiset_ensures;
        broadcast use vstd::multiset::group_multiset_axioms;

        let ghost oldrest = rest@;
        let popped = rest.pop();
        let x = popped.unwrap();
        let ghost preout = decl_models(out@);
        proof {
            assert(oldrest =~= rest@.push(x));
            assert(decl_models(oldrest) =~= decl_models(rest@).push(x@));
            assert(decl_models(rest@).push(x@).to_multiset() =~= decl_models(
                rest@,
            ).to_multiset().insert(x@));
            assert(decl_models(oldrest).to_multiset() =~= decl_models(
                rest@,
            ).to_multiset().insert(x@));
        }
        insert_sorted(&mut out, x);
        proof {
            assert(decl_models(out@).to_multiset() =~= preout.to_multiset().insert(x@));
            assert forall|v: RouteDeclModel|
                decl_models(out@).to_multiset().add(decl_models(rest@).to_multiset()).count(v)
                    == origm.to_multiset().count(v) by {
                assert(preout.to_multiset().add(decl_models(oldrest).to_multiset()).count(v)
                    == origm.to_multiset().count(v));
            }
            assert(decl_models(out@).to_multiset().add(decl_models(rest@).to_multiset())
                =~= origm.to_multiset());
        }
    }
    proof {
        broadcast use vstd::seq_lib::group_to_multiset_ensures;
        broadcast use vstd::multiset::group_multiset_axioms;

        assert(rest@.len() == 0);
        assert(decl_models(rest@) =~= Seq::<RouteDeclModel>::empty());
        assert(decl_models(rest@).to_multiset().len() == 0);
        vstd::multiset::lemma_multiset_empty_len::<RouteDeclModel>(
            decl_models(rest@).to_multiset(),
        );
        assert(decl_models(out@).to_multiset().add(Multiset::<RouteDeclModel>::empty())
            =~= decl_models(out@).to_multiset());
        assert(decl_models(out@).to_multiset() =~= origm.to_multiset());
        lemma_decl_order_total();
        origm.lemma_sort_by_ensures(decl_order());
        lemma_sorted_unique(decl_models(out@), origm.sort_by(decl_order()), decl_order());
    }
    out
}

/// Sorting is canonical: two declaration lists holding the same declarations
/// sort to the same sequence, whatever order scanning produced them in. This
/// is what makes the generated output deterministic under parallel scanning.
pub proof fn lemma_sort_canonical(a: Seq<RouteDeclModel>, b: Seq<RouteDeclModel>)
    requires
        a.to_multiset() == b.to_multiset(),
    ensures
        a.sort_by(decl_order()) == b.sort_by(decl_order()),
{
    lemma_decl_order_total();
    a.lemma_sort_by_ensures(decl_order());
    b.lemma_sort_by_ensures(decl_order());
    lemma_sorted_unique(a.sort_by(decl_order()), b.sort_by(decl_order()), decl_order());
}

// ---------------------------------------------------------------------------
// Grouping by exact module-path equality.
// ---------------------------------------------------------------------------

/// Model of one module group.
#[verifier::ext_equal]
pub ghost struct ModuleGroupModel {
    pub mod_path: Seq<Seq<char>>,
    pub decls: Seq<RouteDeclModel>,
}

/// One module group: the shared module path, and the declarations under it
/// in canonical order.
pub struct ModuleGroup {
    pub mod_path: Vec<String>,
    pub decls: Vec<RouteDecl>,
}

impl View for ModuleGroup {
    type V = ModuleGroupModel;

    open spec fn view(&self) -> ModuleGroupModel {
        ModuleGroupModel { mod_path: self.mod_path.deep_view(), decls: decl_models(self.decls@) }
    }
}

pub open spec fn group_models(s: Seq<ModuleGroup>) -> Seq<ModuleGroupModel> {
    s.map_values(|g: ModuleGroup| g@)
}

/// Groups consecutive declarations that share a module path. On a sorted
/// sequence, where equal module paths are adjacent, this is grouping by
/// exact module-path equality.
pub open spec fn spec_groups(s: Seq<RouteDeclModel>) -> Seq<ModuleGroupModel>
    decreases s.len(),
{
    if s.len() == 0 {
        Seq::empty()
    } else {
        let rest = spec_groups(s.drop_first());
        if rest.len() > 0 && rest[0].mod_path == s[0].mod_path {
            seq![
                ModuleGroupModel {
                    mod_path: s[0].mod_path,
                    decls: seq![s[0]] + rest[0].decls,
                },
            ] + rest.drop_first()
        } else {
            seq![ModuleGroupModel { mod_path: s[0].mod_path, decls: seq![s[0]] }] + rest
        }
    }
}

/// Every declaration of a group carries exactly the group's module path, and
/// no group is empty.
pub proof fn lemma_groups_sound(s: Seq<RouteDeclModel>)
    ensures
        forall|i: int| #![trigger spec_groups(s)[i]]
            0 <= i < spec_groups(s).len() ==> spec_groups(s)[i].decls.len() > 0 && forall|j: int|
                0 <= j < spec_groups(s)[i].decls.len() ==> (#[trigger] spec_groups(
                    s,
                )[i].decls[j]).mod_path == spec_groups(s)[i].mod_path,
    decreases s.len(),
{
    if s.len() > 0 {
        lemma_groups_sound(s.drop_first());
        let rest = spec_groups(s.drop_first());
        let gs = spec_groups(s);
        if rest.len() > 0 && rest[0].mod_path == s[0].mod_path {
            assert forall|i: int| 0 <= i < gs.len() implies gs[i].decls.len() > 0 && forall|j: int|
                0 <= j < gs[i].decls.len() ==> (#[trigger] gs[i].decls[j]).mod_path
                    == gs[i].mod_path by {
                if i == 0 {
                    assert(gs[0].decls =~= seq![s[0]] + rest[0].decls);
                } else {
                    assert(gs[i] == rest[i]);
                }
            }
        } else {
            assert forall|i: int| 0 <= i < gs.len() implies gs[i].decls.len() > 0 && forall|j: int|
                0 <= j < gs[i].decls.len() ==> (#[trigger] gs[i].decls[j]).mod_path
                    == gs[i].mod_path by {
                if i > 0 {
                    assert(gs[i] == rest[i - 1]);
                }
            }
        }
    }
}

/// The declarations of a group sequence, in order.
pub open spec fn flatten_groups(gs: Seq<ModuleGroupModel>) -> Seq<RouteDeclModel>
    decreases gs.len(),
{
    if gs.len() == 0 {
        Seq::empty()
    } else {
        gs[0].decls + flatten_groups(gs.drop_first())
    }
}

/// Grouping loses and invents nothing: the groups' declarations, read in
/// order, are exactly the input sequence.
pub proof fn lemma_groups_complete(s: Seq<RouteDeclModel>)
    ensures
        flatten_groups(spec_groups(s)) == s,
    decreases s.len(),
{
    if s.len() == 0 {
        assert(flatten_groups(spec_groups(s)) =~= s);
    } else {
        lemma_groups_complete(s.drop_first());
        let rest = spec_groups(s.drop_first());
        let gs = spec_groups(s);
        if rest.len() > 0 && rest[0].mod_path == s[0].mod_path {
            assert(gs.drop_first() =~= rest.drop_first());
            assert(flatten_groups(gs) == gs[0].decls + flatten_groups(rest.drop_first()));
            assert(flatten_groups(rest) == rest[0].decls + flatten_groups(rest.drop_first()));
            assert(gs[0].decls =~= seq![s[0]] + rest[0].decls);
            assert(flatten_groups(gs) =~= (seq![s[0]] + rest[0].decls) + flatten_groups(
                rest.drop_first(),
            ));
            assert((seq![s[0]] + rest[0].decls) + flatten_groups(rest.drop_first()) =~= seq![s[0]]
                + (rest[0].decls + flatten_groups(rest.drop_first())));
            assert(rest[0].decls + flatten_groups(rest.drop_first()) == flatten_groups(rest));
            assert(flatten_groups(gs) =~= seq![s[0]] + s.drop_first());
            assert(seq![s[0]] + s.drop_first() =~= s);
        } else {
            assert(gs.drop_first() =~= rest);
            assert(flatten_groups(gs) == gs[0].decls + flatten_groups(gs.drop_first()));
            assert(flatten_groups(gs.drop_first()) == flatten_groups(rest));
            assert(gs[0].decls == seq![s[0]]);
            assert(flatten_groups(gs) =~= seq![s[0]] + s.drop_first());
            assert(seq![s[0]] + s.drop_first() =~= s);
        }
    }
}

/// Grouping starts with the first declaration's path, and every group path
/// is the path of some input declaration.
proof fn lemma_groups_paths_from(s: Seq<RouteDeclModel>)
    ensures
        spec_groups(s).len() > 0 <==> s.len() > 0,
        s.len() > 0 ==> spec_groups(s)[0].mod_path == s[0].mod_path,
        forall|i: int| #![trigger spec_groups(s)[i]]
            0 <= i < spec_groups(s).len() ==> exists|k: int|
                0 <= k < s.len() && spec_groups(s)[i].mod_path == (#[trigger] s[k]).mod_path,
    decreases s.len(),
{
    if s.len() > 0 {
        lemma_groups_paths_from(s.drop_first());
        let rest = spec_groups(s.drop_first());
        let gs = spec_groups(s);
        assert forall|i: int| #![trigger gs[i]] 0 <= i < gs.len() implies exists|k: int|
            0 <= k < s.len() && gs[i].mod_path == (#[trigger] s[k]).mod_path by {
            if i == 0 {
                assert(gs[0].mod_path == s[0].mod_path);
            } else {
                let r = if rest.len() > 0 && rest[0].mod_path == s[0].mod_path {
                    rest.drop_first()[i - 1]
                } else {
                    rest[i - 1]
                };
                assert(gs[i] == r);
                let ri = if rest.len() > 0 && rest[0].mod_path == s[0].mod_path {
                    i
                } else {
                    i - 1
                };
                assert(rest[ri] == r);
                let k = choose|k: int|
                    0 <= k < s.drop_first().len() && rest[ri].mod_path == s.drop_first()[k].mod_path;
                assert(s.drop_first()[k] == s[k + 1]);
            }
        }
    }
}

/// In a canonically ordered sequence, equal module paths are adjacent, so no
/// two groups share a path: each group holds exactly the declarations of its
/// path.
pub proof fn lemma_groups_distinct(s: Seq<RouteDeclModel>)
    requires
        sorted_by(s, decl_order()),
    ensures
        forall|i: int, j: int|
            0 <= i < j < spec_groups(s).len() ==> (#[trigger] spec_groups(s)[i]).mod_path != (
            #[trigger] spec_groups(s)[j]).mod_path,
    decreases s.len(),
{
    if s.len() > 0 {
        let ord = decl_order();
        assert forall|p: int, q: int| 0 <= p < q < s.drop_first().len() implies #[trigger] ord(
            s.drop_first()[p],
            s.drop_first()[q],
        ) by {
            assert(s.drop_first()[p] == s[p + 1]);
            assert(s.drop_first()[q] == s[q + 1]);
            assert(ord(s[p + 1], s[q + 1]));
        }
        assert(sorted_by(s.drop_first(), ord));
        lemma_groups_distinct(s.drop_first());
        lemma_groups_paths_from(s.drop_first());
        let rest = spec_groups(s.drop_first());
        let gs = spec_groups(s);
        if rest.len() > 0 && rest[0].mod_path == s[0].mod_path {
            assert forall|i: int, j: int| 0 <= i < j < gs.len() implies (
            #[trigger] gs[i]).mod_path != (#[trigger] gs[j]).mod_path by {
                if i == 0 {
                    assert(gs[j] == rest.drop_first()[j - 1]);
                    assert(rest.drop_first()[j - 1] == rest[j]);
                    assert(rest[0].mod_path != rest[j].mod_path);
                    assert(gs[0].mod_path == rest[0].mod_path);
                } else {
                    assert(gs[i] == rest[i]);
                    assert(gs[j] == rest[j]);
                }
            }
        } else {
            assert forall|i: int, j: int| 0 <= i < j < gs.len() implies (
            #[trigger] gs[i]).mod_path != (#[trigger] gs[j]).mod_path by {
                if i == 0 {
                    assert(gs[j] == rest[j - 1]);
                    assert(rest[j - 1] == spec_groups(s.drop_first())[j - 1]);
                    // the later group's path comes from some later element
                    let k = choose|k: int|
                        0 <= k < s.drop_first().len() && rest[j - 1].mod_path == (
                        #[trigger] s.drop_first()[k]).mod_path;
                    if gs[0].mod_path == gs[j].mod_path {
                        // s[0] and s[k + 1] share a path; sortedness then
                        // forces s[1] to share it too, so the first rest
                        // group would have merged
                        assert(s.drop_first()[k] == s[k + 1]);
                        assert(s[k + 1].mod_path == s[0].mod_path);
                        if k + 1 > 1 {
                            assert(ord(s[0], s[1]));
                            assert(ord(s[1], s[k + 1]));
                            if s[0].mod_path != s[1].mod_path {
                                assert(strs_le(s[0].mod_path, s[1].mod_path));
                                assert(s[1].mod_path != s[k + 1].mod_path);
                                assert(strs_le(s[1].mod_path, s[k + 1].mod_path));
                                assert(strs_le(s[1].mod_path, s[0].mod_path));
                                lemma_strs_le_antisymmetric(s[0].mod_path, s[1].mod_path);
                            }
                        }
                        assert(s[1].mod_path == s[0].mod_path);
                        assert(s.drop_first().len() > 0);
                        assert(rest[0].mod_path == s.drop_first()[0].mod_path);
                        assert(s.drop_first()[0] == s[1]);
                        assert(false);
                    }
                } else {
                    assert(gs[i] == rest[i - 1]);
                    assert(gs[j] == rest[j - 1]);
                }
            }
        }
    }
}

/// Groups the declarations, which must already be in canonical order, by
/// exact module-path equality.
pub fn group_decls(decls: Vec<RouteDecl>) -> (r: Vec<ModuleGroup>)
    ensures
        group_models(r@) == spec_groups(decl_models(decls@)),
{
    let ghost models = decl_models(decls@);
    let mut rest = decls;
    let mut groups: Vec<ModuleGroup> = Vec::new();
    proof {
        assert(decl_models(rest@) =~= models);
        assert(models.skip(models.len() as int) =~= Seq::<RouteDeclModel>::empty());
        assert(group_models(groups@) =~= spec_groups(models.skip(models.len() as int)));
    }
    while rest.len() > 0
        invariant
            rest@.len() <= models.len(),
            decl_models(rest@) == models.take(rest@.len() as int),
            models == decl_models(decls@),
            group_models(groups@) == spec_groups(models.skip(rest@.len() as int)),
        decreases rest.len(),
    {
        let ghost oldrest = rest@;
        let ghost pregroups = groups@;
        let popped = rest.pop();
        match popped {
            None => {
                proof {
                    assert(false);
                }
            },
            Some(x) => {
                let n = rest.len();
                proof {
                    assert(oldrest =~= rest@.push(x));
                    assert(oldrest.len() == n + 1);
                    assert(decl_models(oldrest) == models.take(n + 1));
                    assert(decl_models(oldrest) =~= decl_models(rest@).push(x@));
                    assert(decl_models(rest@) =~= models.take(n + 1).drop_last());
                    assert(models.take(n + 1).drop_last() =~= models.take(n as int));
                    assert(x@ == decl_models(oldrest).last());
                    assert(models.take(n + 1).last() == models[n as int]);
                    assert(x@ == models[n as int]);
                    assert(models.skip(n as int)[0] == models[n as int]);
                    assert(models.skip(n as int).drop_first() =~= models.skip(n + 1));
                    assert(group_models(pregroups) == spec_groups(models.skip(n + 1)));
                }
                let merge = groups.len() > 0 && string_vec_eq(&groups[0].mod_path, &x.mod_path);
                if merge {
                    let mut g = groups.remove(0);
                    let ghost oldg = g;
                    g.decls.insert(0, x);
                    proof {
                        assert(g.decls@ == oldg.decls@.insert(0, x));
                        assert(decl_models(g.decls@) =~= seq![x@] + decl_models(oldg.decls@));
                        assert(g@.mod_path == x@.mod_path);
                    }
                    let ghost tailgroups = groups@;
                    groups.insert(0, g);
                    proof {
                        assert(groups@ =~= seq![g] + tailgroups);
                        let sg = spec_groups(models.skip(n as int));
                        let restg = spec_groups(models.skip(n + 1));
                        assert(pregroups =~= seq![oldg] + tailgroups);
                        assert(restg == group_models(pregroups));
                        assert(restg[0] == oldg@);
                        assert(restg.len() > 0 && restg[0].mod_path == models.skip(
                            n as int,
                        )[0].mod_path);
                        assert(sg == seq![
                            ModuleGroupModel {
                                mod_path: models.skip(n as int)[0].mod_path,
                                decls: seq![models.skip(n as int)[0]] + restg[0].decls,
                            },
                        ] + restg.drop_first());
                        assert(g@ =~= (ModuleGroupModel {
                            mod_path: models.skip(n as int)[0].mod_path,
                            decls: seq![models.skip(n as int)[0]] + restg[0].decls,
                        }));
                        assert(restg.drop_first() =~= group_models(tailgroups));
                        assert(group_models(groups@) =~= sg);
                    }
                } else {
                    let mut decls_one: Vec<RouteDecl> = Vec::new();
                    let path = clone_string_vec(&x.mod_path);
                    decls_one.push(x);
                    let g = ModuleGroup { mod_path: path, decls: decls_one };
                    let ghost tailgroups = groups@;
                    groups.insert(0, g);
                    proof {
                        assert(groups@ =~= seq![g] + tailgroups);
                        let sg = spec_groups(models.skip(n as int));
                        let restg = spec_groups(models.skip(n + 1));
                        assert(tailgroups == pregroups);
                        assert(restg == group_models(pregroups));
                        if restg.len() > 0 {
                            assert(restg[0] == pregroups[0]@);
                            assert(restg[0].mod_path != models.skip(n as int)[0].mod_path);
                        }
                        assert(sg == seq![
                            ModuleGroupModel {
                                mod_path: models.skip(n as int)[0].mod_path,
                                decls: seq![models.skip(n as int)[0]],
                            },
                        ] + restg);
                        assert(g@ =~= (ModuleGroupModel {
                            mod_path: models.skip(n as int)[0].mod_path,
                            decls: seq![models.skip(n as int)[0]],
                        }));
                        assert(group_models(groups@) =~= sg);
                    }
                }
            },
        }
    }
    proof {
        assert(rest@.len() == 0);
        assert(models.skip(0) =~= models);
        assert(group_models(groups@) == spec_groups(models));
    }
    groups
}

} // verus!
