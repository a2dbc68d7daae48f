use vstd::prelude::*;

use crate::model::{
    attr_ops, ids_set, name_in, pat_bindings, pat_ids, pat_opt_seq_bindings, pat_ops,
    prop_bindings, prop_seq_bindings, BindingV, DeclV, ExportSpecifierV, ImportSpecifierV,
    ItemKindV, ItemV, ObjectPatPropV, PatV, VarDeclaratorV,
};
use crate::graph::{
    add_export_bindings, apply_declarator, apply_declarators, apply_export_specs,
    apply_import_specs, apply_ops, empty_graph, graph_add, graph_add_items, graph_of,
    ExportEntryV, GraphV,
};
use crate::solver::{
    forced_ids, live_base, live_set, lemma_reach_base, lemma_reach_minimal, matched_ids,
    reach_closed, reach_ok, removed_set, removing_default, seed_base,
};
use crate::prune::{
    effective_name, prune_declarators, prune_elems, prune_export_specs, prune_import_specs,
    prune_item, prune_items, prune_pat, prune_props,
};

verus! {

broadcast use vstd::seq::axiom_seq_index_decreases, vstd::seq::axiom_seq_subrange_decreases;

// ---------------------------------------------------------------------------
// Pruning again removes nothing more: the second half of the idempotence
// argument.  A pruned pattern survives an empty removal set untouched, and
// a pruned export list holds no removed name to drop.
// ---------------------------------------------------------------------------

/// A pruned pattern, pruned again with nothing to remove, is unchanged,
/// and one that was not emptied is not emptied now.
proof fn lemma_prune_pat_again(p: PatV, rem: Set<u64>)
    ensures
        prune_pat(prune_pat(p, rem).0, Set::<u64>::empty()).0 == prune_pat(p, rem).0,
        !prune_pat(p, rem).1 ==> !prune_pat(prune_pat(p, rem).0, Set::<u64>::empty()).1,
    decreases p,
{
    match p {
        PatV::Ident { binding } => {}
        PatV::Array { elems } => {
            lemma_prune_elems_again(elems, rem);
        }
        PatV::Rest { arg } => {
            lemma_prune_pat_again(*arg, rem);
        }
        PatV::Object { props } => {
            lemma_prune_props_again(props, rem);
        }
        PatV::Assign { left, refs } => {
            lemma_prune_pat_again(*left, rem);
        }
    }
}

proof fn lemma_prune_elems_again(s: Seq<Option<PatV>>, rem: Set<u64>)
    ensures
        prune_elems(prune_elems(s, rem), Set::<u64>::empty()) == prune_elems(s, rem),
    decreases s,
{
    if s.len() > 0 {
        lemma_prune_elems_again(s.drop_last(), rem);
        let e1 = prune_elems(s.drop_last(), rem);
        let e = prune_elems(s, rem);
        assert(e == e1.push(e.last()));
        assert(e.drop_last() =~= e1);
        match s.last() {
            None => {
                assert(prune_elems(e, Set::<u64>::empty()) =~= e);
            }
            Some(q) => {
                lemma_prune_pat_again(q, rem);
                assert(prune_elems(e, Set::<u64>::empty()) =~= e);
            }
        }
    } else {
        assert(prune_elems(s, rem) =~= Seq::<Option<PatV>>::empty());
    }
}

proof fn lemma_prune_props_again(s: Seq<ObjectPatPropV>, rem: Set<u64>)
    ensures
        prune_props(prune_props(s, rem), Set::<u64>::empty()) == prune_props(s, rem),
    decreases s,
{
    if s.len() > 0 {
        lemma_prune_props_again(s.drop_last(), rem);
        let r1 = prune_props(s.drop_last(), rem);
        let r = prune_props(s, rem);
        match s.last() {
            ObjectPatPropV::KeyValue { tag, pat } => {
                lemma_prune_pat_again(pat, rem);
                if !prune_pat(pat, rem).1 {
                    assert(r == r1.push(
                        ObjectPatPropV::KeyValue { tag, pat: prune_pat(pat, rem).0 },
                    ));
                    assert(r.drop_last() =~= r1);
                } else {
                    assert(r == r1);
                }
            }
            ObjectPatPropV::Assign { tag, key, refs } => {
                if !rem.contains(key.id) {
                    assert(r == r1.push(s.last()));
                    assert(r.drop_last() =~= r1);
                } else {
                    assert(r == r1);
                }
            }
            ObjectPatPropV::Rest { tag, arg } => {
                lemma_prune_pat_again(*arg, rem);
                if !prune_pat(*arg, rem).1 {
                    assert(r == r1.push(
                        ObjectPatPropV::Rest { tag, arg: Box::new(prune_pat(*arg, rem).0) },
                    ));
                    assert(r.drop_last() =~= r1);
                } else {
                    assert(r == r1);
                }
            }
        }
        assert(prune_props(r, Set::<u64>::empty()) =~= r);
    } else {
        assert(prune_props(s, rem) =~= Seq::<ObjectPatPropV>::empty());
    }
}

proof fn lemma_prune_declarators_again(s: Seq<VarDeclaratorV>, rem: Set<u64>)
    ensures
        prune_declarators(prune_declarators(s, rem), Set::<u64>::empty()) == prune_declarators(
            s,
            rem,
        ),
    decreases s,
{
    if s.len() > 0 {
        lemma_prune_declarators_again(s.drop_last(), rem);
        let r1 = prune_declarators(s.drop_last(), rem);
        let r = prune_declarators(s, rem);
        lemma_prune_pat_again(s.last().pat, rem);
        if !prune_pat(s.last().pat, rem).1 {
            assert(r == r1.push(
                VarDeclaratorV {
                    tag: s.last().tag,
                    pat: prune_pat(s.last().pat, rem).0,
                    init_refs: s.last().init_refs,
                },
            ));
            assert(r.drop_last() =~= r1);
        } else {
            assert(r == r1);
        }
        assert(prune_declarators(r, Set::<u64>::empty()) =~= r);
    } else {
        assert(prune_declarators(s, rem) =~= Seq::<VarDeclaratorV>::empty());
    }
}

/// With nothing to remove, no import specifier falls.
proof fn lemma_prune_import_specs_empty(s: Seq<ImportSpecifierV>)
    ensures
        prune_import_specs(s, Set::<u64>::empty()) == s,
    decreases s,
{
    if s.len() > 0 {
        lemma_prune_import_specs_empty(s.drop_last());
        assert(prune_import_specs(s, Set::<u64>::empty()) =~= s);
    } else {
        assert(prune_import_specs(s, Set::<u64>::empty()) =~= s);
    }
}

/// A pruned export list holds no removed name, so pruning it again drops
/// nothing.
proof fn lemma_prune_export_specs_again(s: Seq<ExportSpecifierV>, names: Seq<Seq<u8>>)
    ensures
        prune_export_specs(prune_export_specs(s, names), names) == prune_export_specs(s, names),
    decreases s,
{
    if s.len() > 0 {
        lemma_prune_export_specs_again(s.drop_last(), names);
        let r1 = prune_export_specs(s.drop_last(), names);
        let r = prune_export_specs(s, names);
        if !name_in(names, effective_name(s.last())) {
            assert(r == r1.push(s.last()));
            assert(r.drop_last() =~= r1);
        } else {
            assert(r == r1);
        }
        assert(prune_export_specs(r, names) =~= r);
    } else {
        assert(prune_export_specs(s, names) =~= Seq::<ExportSpecifierV>::empty());
    }
}

/// A surviving item, pruned again with an empty removal set and the same
/// names, survives unchanged.
proof fn lemma_prune_item_again(item: ItemV, rem: Set<u64>, names: Seq<Seq<u8>>)
    ensures
        match prune_item(item, rem, names) {
            Some(x) => prune_item(x, Set::<u64>::empty(), names) == Some(x),
            None => true,
        },
{
    match item.kind {
        ItemKindV::Import { specifiers } => {
            let ks = prune_import_specs(specifiers, rem);
            lemma_prune_import_specs_empty(ks);
        }
        ItemKindV::Decl { decl } => {
            match decl {
                crate::model::DeclV::Var { kind, decls } => {
                    lemma_prune_declarators_again(decls, rem);
                }
                _ => {}
            }
        }
        ItemKindV::ExportDecl { decl } => {
            match decl {
                crate::model::DeclV::Var { kind, decls } => {
                    lemma_prune_declarators_again(decls, rem);
                }
                _ => {}
            }
        }
        ItemKindV::ExportNamed { has_src, specifiers } => {
            lemma_prune_export_specs_again(specifiers, names);
        }
        _ => {}
    }
}

/// Pruning the pruned items again, with an empty removal set and the same
/// names, changes nothing.
pub proof fn lemma_prune_items_again(items: Seq<ItemV>, rem: Set<u64>, names: Seq<Seq<u8>>)
    ensures
        prune_items(prune_items(items, rem, names), Set::<u64>::empty(), names) == prune_items(
            items,
            rem,
            names,
        ),
    decreases items,
{
    if items.len() > 0 {
        lemma_prune_items_again(items.drop_last(), rem, names);
        let r1 = prune_items(items.drop_last(), rem, names);
        let r = prune_items(items, rem, names);
        lemma_prune_item_again(items.last(), rem, names);
        match prune_item(items.last(), rem, names) {
            Some(x) => {
                assert(r == r1.push(x));
                assert(r.drop_last() =~= r1);
                assert(prune_items(r, Set::<u64>::empty(), names) =~= r);
            }
            None => {
                assert(r == r1);
                assert(prune_items(r, Set::<u64>::empty(), names) =~= r);
            }
        }
    } else {
        assert(prune_items(items, rem, names) =~= Seq::<ItemV>::empty());
    }
}

// ---------------------------------------------------------------------------
// The first half of the idempotence argument: the pruned module exports no
// removed name and, when the default export was removed, no default export;
// so a second solve seeds nothing and removes nothing.
// ---------------------------------------------------------------------------

/// Membership in a concatenation.
proof fn lemma_contains_concat<T>(a: Seq<T>, b: Seq<T>, x: T)
    ensures
        (a + b).contains(x) <==> a.contains(x) || b.contains(x),
{
    if a.contains(x) {
        let i = choose|i: int| 0 <= i < a.len() && a[i] == x;
        assert((a + b)[i] == x);
    }
    if b.contains(x) {
        let i = choose|i: int| 0 <= i < b.len() && b[i] == x;
        assert((a + b)[a.len() + i] == x);
    }
    if (a + b).contains(x) {
        let i = choose|i: int| 0 <= i < (a + b).len() && (a + b)[i] == x;
        if i < a.len() {
            assert(a[i] == x);
        } else {
            assert(b[i - a.len()] == x);
        }
    }
}

/// The export entries of one binding list of an exported declaration.
pub open spec fn bindings_entries(bs: Seq<BindingV>) -> Seq<ExportEntryV>
    decreases bs,
{
    if bs.len() == 0 {
        seq![]
    } else {
        bindings_entries(bs.drop_last()).push(
            ExportEntryV { name: bs.last().name, id: bs.last().id, from_decl: true },
        )
    }
}

/// The export entries of an exported variable declaration.
pub open spec fn declarators_exports(s: Seq<VarDeclaratorV>) -> Seq<ExportEntryV>
    decreases s,
{
    if s.len() == 0 {
        seq![]
    } else {
        declarators_exports(s.drop_last()) + bindings_entries(pat_bindings(s.last().pat))
    }
}

/// The export entries of a local named export's specifiers.
pub open spec fn specs_exports(s: Seq<ExportSpecifierV>) -> Seq<ExportEntryV>
    decreases s,
{
    if s.len() == 0 {
        seq![]
    } else {
        let r = specs_exports(s.drop_last());
        match s.last() {
            ExportSpecifierV::Named { tag, orig, exported } => r.push(
                ExportEntryV { name: effective_name(s.last()), id: orig.id, from_decl: false },
            ),
            ExportSpecifierV::Namespace { tag, name } => r,
        }
    }
}

/// The export entries one top-level item contributes.
pub open spec fn item_exports(item: ItemV) -> Seq<ExportEntryV> {
    match item.kind {
        ItemKindV::ExportDecl { decl } => match decl {
            DeclV::Class { binding, refs } => seq![
                ExportEntryV { name: binding.name, id: binding.id, from_decl: true },
            ],
            DeclV::Fn { binding, refs } => seq![
                ExportEntryV { name: binding.name, id: binding.id, from_decl: true },
            ],
            DeclV::Var { kind, decls } => declarators_exports(decls),
        },
        ItemKindV::ExportNamed { has_src, specifiers } => if has_src {
            seq![]
        } else {
            specs_exports(specifiers)
        },
        _ => seq![],
    }
}

/// The export entries of an item list.
pub open spec fn items_exports(items: Seq<ItemV>) -> Seq<ExportEntryV>
    decreases items,
{
    if items.len() == 0 {
        seq![]
    } else {
        items_exports(items.drop_last()) + item_exports(items.last())
    }
}

/// The default-export references one item contributes.
pub open spec fn item_defaults(item: ItemV) -> Set<u64> {
    match item.kind {
        ItemKindV::ExportDefaultDecl { kind, binding, refs } => ids_set(refs),
        ItemKindV::ExportDefaultExpr { refs } => ids_set(refs),
        _ => Set::empty(),
    }
}

pub open spec fn items_defaults(items: Seq<ItemV>) -> Set<u64>
    decreases items,
{
    if items.len() == 0 {
        Set::empty()
    } else {
        items_defaults(items.drop_last()).union(item_defaults(items.last()))
    }
}

/// Attributions touch no exports and no defaults, and register their keys.
proof fn lemma_apply_ops_effect(g: GraphV, ops: Seq<(u64, Seq<u64>)>)
    ensures
        apply_ops(g, ops).exports == g.exports,
        apply_ops(g, ops).defaults == g.defaults,
        g.decl_refs.dom().subset_of(apply_ops(g, ops).decl_refs.dom()),
        forall|i: int|
            0 <= i < ops.len() ==> apply_ops(g, ops).decl_refs.dom().contains(
                (#[trigger] ops[i]).0,
            ),
    decreases ops,
{
    if ops.len() > 0 {
        lemma_apply_ops_effect(g, ops.drop_last());
        assert(forall|i: int| 0 <= i < ops.len() - 1 ==> ops.drop_last()[i] == ops[i]);
    }
}

proof fn lemma_apply_import_specs_effect(g: GraphV, s: Seq<ImportSpecifierV>)
    ensures
        apply_import_specs(g, s).exports == g.exports,
        apply_import_specs(g, s).defaults == g.defaults,
        g.decl_refs.dom().subset_of(apply_import_specs(g, s).decl_refs.dom()),
    decreases s,
{
    if s.len() > 0 {
        lemma_apply_import_specs_effect(g, s.drop_last());
    }
}

proof fn lemma_add_export_bindings_effect(g: GraphV, bs: Seq<BindingV>)
    ensures
        add_export_bindings(g, bs).exports == g.exports + bindings_entries(bs),
        add_export_bindings(g, bs).defaults == g.defaults,
        add_export_bindings(g, bs).decl_refs == g.decl_refs,
    decreases bs,
{
    if bs.len() > 0 {
        lemma_add_export_bindings_effect(g, bs.drop_last());
        assert(add_export_bindings(g, bs).exports =~= g.exports + bindings_entries(bs));
    } else {
        assert(add_export_bindings(g, bs).exports =~= g.exports + bindings_entries(bs));
    }
}

/// The identities of an exported pattern are registered by its declarator's
/// attributions.
proof fn lemma_apply_declarator_effect(g: GraphV, d: VarDeclaratorV, exported: bool)
    ensures
        apply_declarator(g, d, exported).exports == g.exports + (if exported {
            bindings_entries(pat_bindings(d.pat))
        } else {
            seq![]
        }),
        apply_declarator(g, d, exported).defaults == g.defaults,
        g.decl_refs.dom().subset_of(apply_declarator(g, d, exported).decl_refs.dom()),
        forall|b: BindingV| #[trigger] pat_bindings(d.pat).contains(b) ==> apply_declarator(
            g,
            d,
            exported,
        ).decl_refs.dom().contains(b.id),
{
    let g1 = apply_ops(g, pat_ops(d.pat));
    let g2 = apply_ops(g1, attr_ops(pat_ids(d.pat), d.init_refs));
    lemma_apply_ops_effect(g, pat_ops(d.pat));
    lemma_apply_ops_effect(g1, attr_ops(pat_ids(d.pat), d.init_refs));
    if exported {
        lemma_add_export_bindings_effect(g2, pat_bindings(d.pat));
    } else {
        assert(g.exports + seq![ExportEntryV { name: seq![], id: 0, from_decl: false }].take(0int)
            =~= g.exports);
        assert(apply_declarator(g, d, exported).exports =~= g.exports);
    }
    assert forall|b: BindingV| #[trigger] pat_bindings(d.pat).contains(b) implies apply_declarator(
        g,
        d,
        exported,
    ).decl_refs.dom().contains(b.id) by {
        let i = choose|i: int| 0 <= i < pat_bindings(d.pat).len() && pat_bindings(d.pat)[i] == b;
        assert(attr_ops(pat_ids(d.pat), d.init_refs)[i].0 == b.id);
        assert(g2.decl_refs.dom().contains(b.id));
    }
}

proof fn lemma_apply_declarators_effect(g: GraphV, s: Seq<VarDeclaratorV>, exported: bool)
    ensures
        apply_declarators(g, s, exported).exports == g.exports + (if exported {
            declarators_exports(s)
        } else {
            seq![]
        }),
        apply_declarators(g, s, exported).defaults == g.defaults,
        g.decl_refs.dom().subset_of(apply_declarators(g, s, exported).decl_refs.dom()),
        forall|e: ExportEntryV| #[trigger] declarators_exports(s).contains(e) && e.from_decl
            ==> apply_declarators(g, s, exported).decl_refs.dom().contains(e.id),
    decreases s,
{
    if s.len() > 0 {
        lemma_apply_declarators_effect(g, s.drop_last(), exported);
        let gp = apply_declarators(g, s.drop_last(), exported);
        lemma_apply_declarator_effect(gp, s.last(), exported);
        if exported {
            assert(apply_declarators(g, s, exported).exports =~= g.exports
                + declarators_exports(s));
        } else {
            assert(apply_declarators(g, s, exported).exports =~= g.exports);
        }
        assert forall|e: ExportEntryV|
            #[trigger] declarators_exports(s).contains(e) && e.from_decl implies apply_declarators(
            g,
            s,
            exported,
        ).decl_refs.dom().contains(e.id) by {
            lemma_contains_concat(
                declarators_exports(s.drop_last()),
                bindings_entries(pat_bindings(s.last().pat)),
                e,
            );
            if declarators_exports(s.drop_last()).contains(e) {
                assert(gp.decl_refs.dom().contains(e.id));
                lemma_apply_declarator_effect(gp, s.last(), exported);
            } else {
                let bs = pat_bindings(s.last().pat);
                lemma_bindings_entries_index(bs);
                let i = choose|i: int|
                    0 <= i < bindings_entries(bs).len() && bindings_entries(bs)[i] == e;
                assert(bs.contains(bs[i]));
                assert(e.id == bs[i].id);
                assert(apply_declarator(gp, s.last(), exported).decl_refs.dom().contains(
                    bs[i].id,
                ));
            }
        }
    } else {
        assert(apply_declarators(g, s, exported).exports =~= g.exports + (if exported {
            declarators_exports(s)
        } else {
            seq![]
        }));
    }
}

/// The entries of a binding list, one for one.
proof fn lemma_bindings_entries_index(bs: Seq<BindingV>)
    ensures
        bindings_entries(bs).len() == bs.len(),
        forall|i: int|
            0 <= i < bs.len() ==> bindings_entries(bs)[i] == (ExportEntryV {
                name: bs[i].name,
                id: bs[i].id,
                from_decl: true,
            }),
    decreases bs,
{
    if bs.len() > 0 {
        lemma_bindings_entries_index(bs.drop_last());
    }
}

/// No specifier entry is a declaration's own.
proof fn lemma_specs_exports_not_decl(s: Seq<ExportSpecifierV>)
    ensures
        forall|e: ExportEntryV| #[trigger] specs_exports(s).contains(e) ==> !e.from_decl,
    decreases s,
{
    if s.len() > 0 {
        lemma_specs_exports_not_decl(s.drop_last());
        assert forall|e: ExportEntryV| #[trigger] specs_exports(s).contains(e) implies !e.from_decl by {
            let i = choose|i: int| 0 <= i < specs_exports(s).len() && specs_exports(s)[i] == e;
            match s.last() {
                ExportSpecifierV::Named { tag, orig, exported } => {
                    if i < specs_exports(s).len() - 1 {
                        assert(specs_exports(s.drop_last()).contains(e));
                    }
                }
                ExportSpecifierV::Namespace { tag, name } => {
                    assert(specs_exports(s.drop_last()).contains(e));
                }
            }
        }
    }
}

proof fn lemma_apply_export_specs_effect(g: GraphV, s: Seq<ExportSpecifierV>)
    ensures
        apply_export_specs(g, s).exports == g.exports + specs_exports(s),
        apply_export_specs(g, s).defaults == g.defaults,
        apply_export_specs(g, s).decl_refs == g.decl_refs,
    decreases s,
{
    if s.len() > 0 {
        lemma_apply_export_specs_effect(g, s.drop_last());
        assert(apply_export_specs(g, s).exports =~= g.exports + specs_exports(s));
    } else {
        assert(apply_export_specs(g, s).exports =~= g.exports + specs_exports(s));
    }
}

/// One item's contribution to the graph: its export entries appended, its
/// default references joined, and for an exported declaration the entry's
/// binding registered.
proof fn lemma_graph_add_effect(g: GraphV, item: ItemV)
    ensures
        graph_add(g, item).exports == g.exports + item_exports(item),
        graph_add(g, item).defaults == g.defaults.union(item_defaults(item)),
        g.decl_refs.dom().subset_of(graph_add(g, item).decl_refs.dom()),
        forall|e: ExportEntryV| #[trigger] item_exports(item).contains(e) && e.from_decl
            ==> graph_add(g, item).decl_refs.dom().contains(e.id),
{
    assert(g.defaults.union(Set::<u64>::empty()) =~= g.defaults);
    match item.kind {
        ItemKindV::Import { specifiers } => {
            lemma_apply_import_specs_effect(g, specifiers);
            assert(graph_add(g, item).exports =~= g.exports + item_exports(item));
        }
        ItemKindV::Decl { decl } => {
            match decl {
                DeclV::Class { binding, refs } => {}
                DeclV::Fn { binding, refs } => {}
                DeclV::Var { kind, decls } => {
                    lemma_apply_declarators_effect(g, decls, false);
                }
            }
            assert(graph_add(g, item).exports =~= g.exports + item_exports(item));
        }
        ItemKindV::ExportDecl { decl } => {
            match decl {
                DeclV::Class { binding, refs } => {
                    assert(graph_add(g, item).exports =~= g.exports + item_exports(item));
                    assert forall|e: ExportEntryV|
                        #[trigger] item_exports(item).contains(e) && e.from_decl implies graph_add(
                        g,
                        item,
                    ).decl_refs.dom().contains(e.id) by {
                        assert(e == item_exports(item)[0]);
                    }
                }
                DeclV::Fn { binding, refs } => {
                    assert(graph_add(g, item).exports =~= g.exports + item_exports(item));
                    assert forall|e: ExportEntryV|
                        #[trigger] item_exports(item).contains(e) && e.from_decl implies graph_add(
                        g,
                        item,
                    ).decl_refs.dom().contains(e.id) by {
                        assert(e == item_exports(item)[0]);
                    }
                }
                DeclV::Var { kind, decls } => {
                    lemma_apply_declarators_effect(g, decls, true);
                }
            }
        }
        ItemKindV::ExportNamed { has_src, specifiers } => {
            if !has_src {
                lemma_apply_export_specs_effect(g, specifiers);
                lemma_specs_exports_not_decl(specifiers);
            } else {
                assert(graph_add(g, item).exports =~= g.exports + item_exports(item));
            }
        }
        ItemKindV::ExportDefaultDecl { kind, binding, refs } => {
            assert(graph_add(g, item).exports =~= g.exports + item_exports(item));
        }
        ItemKindV::ExportDefaultExpr { refs } => {
            assert(graph_add(g, item).exports =~= g.exports + item_exports(item));
        }
        ItemKindV::ExportAll => {
            assert(graph_add(g, item).exports =~= g.exports + item_exports(item));
        }
        ItemKindV::Stmt { refs } => {
            assert(graph_add(g, item).exports =~= g.exports + item_exports(item));
        }
    }
}

/// The whole graph: all export entries in order, all default references,
/// and every exported declaration's binding registered.
proof fn lemma_graph_add_items_effect(g: GraphV, items: Seq<ItemV>)
    ensures
        graph_add_items(g, items).exports == g.exports + items_exports(items),
        graph_add_items(g, items).defaults == g.defaults.union(items_defaults(items)),
        g.decl_refs.dom().subset_of(graph_add_items(g, items).decl_refs.dom()),
        forall|e: ExportEntryV| #[trigger] items_exports(items).contains(e) && e.from_decl
            ==> graph_add_items(g, items).decl_refs.dom().contains(e.id),
    decreases items,
{
    if items.len() > 0 {
        lemma_graph_add_items_effect(g, items.drop_last());
        let gp = graph_add_items(g, items.drop_last());
        lemma_graph_add_effect(gp, items.last());
        assert(graph_add_items(g, items).exports =~= g.exports + items_exports(items));
        assert(graph_add_items(g, items).defaults =~= g.defaults.union(items_defaults(items)));
        assert forall|e: ExportEntryV|
            #[trigger] items_exports(items).contains(e) && e.from_decl implies graph_add_items(
            g,
            items,
        ).decl_refs.dom().contains(e.id) by {
            lemma_contains_concat(items_exports(items.drop_last()), item_exports(items.last()), e);
        }
    } else {
        assert(graph_add_items(g, items).exports =~= g.exports + items_exports(items));
        assert(graph_add_items(g, items).defaults =~= g.defaults.union(items_defaults(items)));
    }
}

/// A requested export whose entry is a declaration's own is in the removal
/// set: its removal is forced.
proof fn lemma_forced_entry_removed(g: GraphV, names: Seq<Seq<u8>>, k: int)
    requires
        0 <= k < g.exports.len(),
        g.exports[k].from_decl,
        name_in(names, g.exports[k].name),
        g.decl_refs.dom().contains(g.exports[k].id),
    ensures
        removed_set(g, names).contains(g.exports[k].id),
{
    let e = g.exports[k];
    lemma_entry_in_matched(g.exports, names, k);
    lemma_entry_in_forced(g.exports, names, k);
    // the live walk never enters a forced deletion
    let wall = forced_ids(g.exports, names);
    let avoid = Set::new(|x: u64| !wall.contains(x));
    assert(reach_ok(live_base(g, names), g.decl_refs, wall, avoid));
    lemma_reach_minimal(live_base(g, names), g.decl_refs, wall, avoid);
    assert(!live_set(g, names).contains(e.id));
    assert(seed_base(g, names).contains(e.id));
    lemma_reach_base(seed_base(g, names), g.decl_refs, live_set(g, names), e.id);
}

proof fn lemma_entry_in_matched(exports: Seq<ExportEntryV>, names: Seq<Seq<u8>>, k: int)
    requires
        0 <= k < exports.len(),
        name_in(names, exports[k].name),
    ensures
        matched_ids(exports, names).contains(exports[k].id),
    decreases exports,
{
    if k < exports.len() - 1 {
        lemma_entry_in_matched(exports.drop_last(), names, k);
    }
}

proof fn lemma_entry_in_forced(exports: Seq<ExportEntryV>, names: Seq<Seq<u8>>, k: int)
    requires
        0 <= k < exports.len(),
        exports[k].from_decl,
        name_in(names, exports[k].name),
    ensures
        forced_ids(exports, names).contains(exports[k].id),
    decreases exports,
{
    if k < exports.len() - 1 {
        lemma_entry_in_forced(exports.drop_last(), names, k);
    }
}

/// With no matching export name, nothing is matched.
proof fn lemma_matched_empty(exports: Seq<ExportEntryV>, names: Seq<Seq<u8>>)
    requires
        forall|k: int| 0 <= k < exports.len() ==> !name_in(names, (#[trigger] exports[k]).name),
    ensures
        matched_ids(exports, names) == Set::<u64>::empty(),
    decreases exports,
{
    if exports.len() > 0 {
        assert(forall|k: int|
            0 <= k < exports.len() - 1 ==> !name_in(
                names,
                (#[trigger] exports.drop_last()[k]).name,
            ));
        lemma_matched_empty(exports.drop_last(), names);
        assert(!name_in(names, exports[exports.len() - 1].name));
    }
}

// --- what survives the pruner ---

/// A binding of a pruned pattern is a surviving binding of the original.
proof fn lemma_prune_pat_bindings(p: PatV, rem: Set<u64>)
    ensures
        forall|b: BindingV| #[trigger] pat_bindings(prune_pat(p, rem).0).contains(b)
            ==> pat_bindings(p).contains(b) && (!rem.contains(b.id) || prune_pat(p, rem).1),
    decreases p,
{
    let pp = prune_pat(p, rem);
    match p {
        PatV::Ident { binding } => {
            assert forall|b: BindingV| #[trigger] pat_bindings(pp.0).contains(b) implies
                pat_bindings(p).contains(b) && (!rem.contains(b.id) || pp.1) by {
                let i = choose|i: int|
                    0 <= i < pat_bindings(pp.0).len() && pat_bindings(pp.0)[i] == b;
                assert(b == binding);
            }
        }
        PatV::Array { elems } => {
            lemma_prune_elems_bindings(elems, rem);
            assert(pat_bindings(pp.0) == pat_opt_seq_bindings(prune_elems(elems, rem)));
        }
        PatV::Rest { arg } => {
            lemma_prune_pat_bindings(*arg, rem);
            assert(pat_bindings(pp.0) == pat_bindings(prune_pat(*arg, rem).0));
        }
        PatV::Object { props } => {
            lemma_prune_props_bindings(props, rem);
            assert(pat_bindings(pp.0) == prop_seq_bindings(prune_props(props, rem)));
        }
        PatV::Assign { left, refs } => {
            lemma_prune_pat_bindings(*left, rem);
            assert(pat_bindings(pp.0) == pat_bindings(prune_pat(*left, rem).0));
        }
    }
}

proof fn lemma_prune_elems_bindings(s: Seq<Option<PatV>>, rem: Set<u64>)
    ensures
        forall|b: BindingV|
            #[trigger] pat_opt_seq_bindings(prune_elems(s, rem)).contains(b)
                ==> pat_opt_seq_bindings(s).contains(b) && !rem.contains(b.id),
    decreases s,
{
    if s.len() > 0 {
        lemma_prune_elems_bindings(s.drop_last(), rem);
        let e = prune_elems(s, rem);
        assert(e.drop_last() =~= prune_elems(s.drop_last(), rem));
        assert(e.len() > 0);
        assert forall|b: BindingV|
            #[trigger] pat_opt_seq_bindings(e).contains(b) implies pat_opt_seq_bindings(
            s,
        ).contains(b) && !rem.contains(b.id) by {
            assert(pat_opt_seq_bindings(e) == pat_opt_seq_bindings(e.drop_last()) + (
            match e.last() {
                Some(q) => pat_bindings(q),
                None => seq![],
            }));
            assert(pat_opt_seq_bindings(s) == pat_opt_seq_bindings(s.drop_last()) + (
            match s.last() {
                Some(q) => pat_bindings(q),
                None => seq![],
            }));
            lemma_contains_concat(
                pat_opt_seq_bindings(e.drop_last()),
                match e.last() {
                    Some(q) => pat_bindings(q),
                    None => seq![],
                },
                b,
            );
            lemma_contains_concat(
                pat_opt_seq_bindings(s.drop_last()),
                match s.last() {
                    Some(q) => pat_bindings(q),
                    None => seq![],
                },
                b,
            );
            if !pat_opt_seq_bindings(e.drop_last()).contains(b) {
                match s.last() {
                    Some(q) => {
                        lemma_prune_pat_bindings(q, rem);
                        assert(!prune_pat(q, rem).1);
                        assert(pat_bindings(prune_pat(q, rem).0).contains(b));
                    }
                    None => {}
                }
            }
        }
    }
}

proof fn lemma_prune_props_bindings(s: Seq<ObjectPatPropV>, rem: Set<u64>)
    ensures
        forall|b: BindingV|
            #[trigger] prop_seq_bindings(prune_props(s, rem)).contains(b) ==> prop_seq_bindings(
                s,
            ).contains(b) && !rem.contains(b.id),
    decreases s,
{
    if s.len() > 0 {
        lemma_prune_props_bindings(s.drop_last(), rem);
        let r1 = prune_props(s.drop_last(), rem);
        let r = prune_props(s, rem);
        assert forall|b: BindingV|
            #[trigger] prop_seq_bindings(r).contains(b) implies prop_seq_bindings(s).contains(b)
            && !rem.contains(b.id) by {
            assert(prop_seq_bindings(s) == prop_seq_bindings(s.drop_last()) + prop_bindings(
                s.last(),
            ));
            assert(r1 == prune_props(s.drop_last(), rem));
            if prop_seq_bindings(r1).contains(b) {
                assert(prop_seq_bindings(prune_props(s.drop_last(), rem)).contains(b));
            }
            lemma_contains_concat(prop_seq_bindings(s.drop_last()), prop_bindings(s.last()), b);
            match s.last() {
                ObjectPatPropV::KeyValue { tag, pat } => {
                    if !prune_pat(pat, rem).1 {
                        let kept = ObjectPatPropV::KeyValue { tag, pat: prune_pat(pat, rem).0 };
                        assert(r == r1.push(kept));
                        assert(r.drop_last() =~= r1);
                        assert(prop_seq_bindings(r) == prop_seq_bindings(r1) + prop_bindings(
                            kept,
                        ));
                        lemma_contains_concat(prop_seq_bindings(r1), prop_bindings(kept), b);
                        if !prop_seq_bindings(r1).contains(b) {
                            assert(prop_bindings(kept).contains(b));
                            assert(pat_bindings(prune_pat(pat, rem).0).contains(b));
                            lemma_prune_pat_bindings(pat, rem);
                            assert(pat_bindings(pat).contains(b));
                            assert(prop_bindings(s.last()).contains(b));
                        }
                    } else {
                        assert(r == r1);
                    }
                }
                ObjectPatPropV::Assign { tag, key, refs } => {
                    if !rem.contains(key.id) {
                        assert(r == r1.push(s.last()));
                        assert(r.drop_last() =~= r1);
                        assert(prop_seq_bindings(r) == prop_seq_bindings(r1) + prop_bindings(
                            s.last(),
                        ));
                        lemma_contains_concat(
                            prop_seq_bindings(r1),
                            prop_bindings(s.last()),
                            b,
                        );
                        if !prop_seq_bindings(r1).contains(b) {
                            let i = choose|i: int|
                                0 <= i < prop_bindings(s.last()).len() && prop_bindings(
                                    s.last(),
                                )[i] == b;
                            assert(b == key);
                        }
                    } else {
                        assert(r == r1);
                    }
                }
                ObjectPatPropV::Rest { tag, arg } => {
                    if !prune_pat(*arg, rem).1 {
                        let kept = ObjectPatPropV::Rest {
                            tag,
                            arg: Box::new(prune_pat(*arg, rem).0),
                        };
                        assert(r == r1.push(kept));
                        assert(r.drop_last() =~= r1);
                        assert(prop_seq_bindings(r) == prop_seq_bindings(r1) + prop_bindings(
                            kept,
                        ));
                        lemma_contains_concat(prop_seq_bindings(r1), prop_bindings(kept), b);
                        if !prop_seq_bindings(r1).contains(b) {
                            assert(prop_bindings(kept).contains(b));
                            assert(pat_bindings(prune_pat(*arg, rem).0).contains(b));
                            lemma_prune_pat_bindings(*arg, rem);
                            assert(pat_bindings(*arg).contains(b));
                            assert(prop_bindings(s.last()).contains(b));
                        }
                    } else {
                        assert(r == r1);
                    }
                }
            }
        }
    }
}

// ---------------------------------------------------------------------------
// The pruned module is clean: no export entry carries a removed name, and
// no default export remains when its removal was requested.
// ---------------------------------------------------------------------------

/// An entry of an exported variable declaration comes from one declarator.
proof fn lemma_declarators_exports_elem(s: Seq<VarDeclaratorV>, e: ExportEntryV)
    ensures
        declarators_exports(s).contains(e) <==> exists|m: int|
            0 <= m < s.len() && #[trigger] bindings_entries(pat_bindings(s[m].pat)).contains(e),
    decreases s,
{
    if s.len() > 0 {
        lemma_declarators_exports_elem(s.drop_last(), e);
        lemma_contains_concat(
            declarators_exports(s.drop_last()),
            bindings_entries(pat_bindings(s.last().pat)),
            e,
        );
        if declarators_exports(s).contains(e) {
            if declarators_exports(s.drop_last()).contains(e) {
                let m = choose|m: int|
                    0 <= m < s.drop_last().len() && #[trigger] bindings_entries(
                        pat_bindings(s.drop_last()[m].pat),
                    ).contains(e);
                assert(s[m] == s.drop_last()[m]);
                assert(bindings_entries(pat_bindings(s[m].pat)).contains(e));
            } else {
                assert(bindings_entries(pat_bindings(s[s.len() - 1].pat)).contains(e));
            }
        }
        if exists|m: int|
            0 <= m < s.len() && #[trigger] bindings_entries(pat_bindings(s[m].pat)).contains(e) {
            let m = choose|m: int|
                0 <= m < s.len() && #[trigger] bindings_entries(pat_bindings(s[m].pat)).contains(
                    e,
                );
            if m < s.len() - 1 {
                assert(s.drop_last()[m] == s[m]);
                assert(bindings_entries(pat_bindings(s.drop_last()[m].pat)).contains(e));
            }
        }
    }
}

/// A surviving declarator is one of the originals, its pattern pruned and
/// not emptied.
proof fn lemma_prune_declarators_elem(s: Seq<VarDeclaratorV>, rem: Set<u64>, d: VarDeclaratorV)
    ensures
        prune_declarators(s, rem).contains(d) ==> exists|m: int|
            0 <= m < s.len() && !prune_pat((#[trigger] s[m]).pat, rem).1 && d
                == (VarDeclaratorV {
                tag: s[m].tag,
                pat: prune_pat(s[m].pat, rem).0,
                init_refs: s[m].init_refs,
            }),
    decreases s,
{
    if s.len() > 0 && prune_declarators(s, rem).contains(d) {
        lemma_prune_declarators_elem(s.drop_last(), rem, d);
        let r1 = prune_declarators(s.drop_last(), rem);
        let r = prune_declarators(s, rem);
        if !prune_pat(s.last().pat, rem).1 {
            assert(r.drop_last() =~= r1);
            let i = choose|i: int| 0 <= i < r.len() && r[i] == d;
            if i < r.len() - 1 {
                assert(r1.contains(d));
                let m = choose|m: int|
                    0 <= m < s.drop_last().len() && !prune_pat(
                        (#[trigger] s.drop_last()[m]).pat,
                        rem,
                    ).1 && d == (VarDeclaratorV {
                        tag: s.drop_last()[m].tag,
                        pat: prune_pat(s.drop_last()[m].pat, rem).0,
                        init_refs: s.drop_last()[m].init_refs,
                    });
                assert(s[m] == s.drop_last()[m]);
            } else {
                assert(d == r.last());
                assert(!prune_pat(s[s.len() - 1].pat, rem).1);
            }
        } else {
            assert(r == r1);
            let m = choose|m: int|
                0 <= m < s.drop_last().len() && !prune_pat(
                    (#[trigger] s.drop_last()[m]).pat,
                    rem,
                ).1 && d == (VarDeclaratorV {
                    tag: s.drop_last()[m].tag,
                    pat: prune_pat(s.drop_last()[m].pat, rem).0,
                    init_refs: s.drop_last()[m].init_refs,
                });
            assert(s[m] == s.drop_last()[m]);
        }
    }
}

/// Every surviving export specifier's effective name stays.
proof fn lemma_prune_export_specs_clean(s: Seq<ExportSpecifierV>, names: Seq<Seq<u8>>)
    ensures
        forall|sp: ExportSpecifierV| #[trigger] prune_export_specs(s, names).contains(sp)
            ==> !name_in(names, effective_name(sp)) && s.contains(sp),
    decreases s,
{
    if s.len() > 0 {
        lemma_prune_export_specs_clean(s.drop_last(), names);
        let r1 = prune_export_specs(s.drop_last(), names);
        let r = prune_export_specs(s, names);
        assert forall|sp: ExportSpecifierV| #[trigger] r.contains(sp) implies !name_in(
            names,
            effective_name(sp),
        ) && s.contains(sp) by {
            if !name_in(names, effective_name(s.last())) {
                assert(r == r1.push(s.last()));
                let i = choose|i: int| 0 <= i < r.len() && r[i] == sp;
                if i < r.len() - 1 {
                    assert(r.drop_last() =~= r1);
                    assert(r1.contains(sp));
                    let j = choose|j: int| 0 <= j < s.drop_last().len() && s.drop_last()[j] == sp;
                    assert(s[j] == sp);
                } else {
                    assert(sp == s.last());
                    assert(s.contains(s.last()));
                }
            } else {
                assert(r == r1);
                assert(r1.contains(sp));
                let j = choose|j: int| 0 <= j < s.drop_last().len() && s.drop_last()[j] == sp;
                assert(s[j] == sp);
            }
        }
    }
}

/// Entries of clean specifiers are clean.
proof fn lemma_specs_exports_clean(s: Seq<ExportSpecifierV>, names: Seq<Seq<u8>>)
    requires
        forall|sp: ExportSpecifierV| #[trigger] s.contains(sp) ==> !name_in(
            names,
            effective_name(sp),
        ),
    ensures
        forall|e: ExportEntryV| #[trigger] specs_exports(s).contains(e) ==> !name_in(
            names,
            e.name,
        ),
    decreases s,
{
    if s.len() > 0 {
        assert forall|sp: ExportSpecifierV| #[trigger] s.drop_last().contains(sp) implies
            !name_in(names, effective_name(sp)) by {
            let j = choose|j: int| 0 <= j < s.drop_last().len() && s.drop_last()[j] == sp;
            assert(s[j] == sp);
            assert(s.contains(sp));
        }
        lemma_specs_exports_clean(s.drop_last(), names);
        assert forall|e: ExportEntryV| #[trigger] specs_exports(s).contains(e) implies !name_in(
            names,
            e.name,
        ) by {
            let i = choose|i: int| 0 <= i < specs_exports(s).len() && specs_exports(s)[i] == e;
            match s.last() {
                ExportSpecifierV::Named { tag, orig, exported } => {
                    if i < specs_exports(s).len() - 1 {
                        assert(specs_exports(s.drop_last()).contains(e));
                    } else {
                        assert(e.name == effective_name(s.last()));
                        assert(s.contains(s.last()));
                    }
                }
                ExportSpecifierV::Namespace { tag, name } => {
                    assert(specs_exports(s.drop_last()).contains(e));
                }
            }
        }
    }
}

/// An item's entries stand in the whole module's entries.
proof fn lemma_items_exports_contains(items: Seq<ItemV>, j: int, e: ExportEntryV)
    requires
        0 <= j < items.len(),
        item_exports(items[j]).contains(e),
    ensures
        items_exports(items).contains(e),
    decreases items,
{
    if j < items.len() - 1 {
        lemma_items_exports_contains(items.drop_last(), j, e);
    }
    lemma_contains_concat(items_exports(items.drop_last()), item_exports(items.last()), e);
}

/// Requested removal of a declaration's own export puts its binding in the
/// removal set, wherever in the module the export stands.
proof fn lemma_item_entry_removed(items: Seq<ItemV>, j: int, e: ExportEntryV, names: Seq<Seq<u8>>)
    requires
        0 <= j < items.len(),
        item_exports(items[j]).contains(e),
        e.from_decl,
        name_in(names, e.name),
    ensures
        removed_set(graph_of(items), names).contains(e.id),
{
    let g = graph_of(items);
    lemma_items_exports_contains(items, j, e);
    lemma_graph_add_items_effect(empty_graph(), items);
    assert(g.exports =~= items_exports(items));
    assert(g.decl_refs.dom().contains(e.id));
    let k = choose|k: int| 0 <= k < g.exports.len() && g.exports[k] == e;
    lemma_forced_entry_removed(g, names, k);
}

/// A pruned item exports no removed name.
proof fn lemma_pruned_item_clean(items: Seq<ItemV>, j: int, names: Seq<Seq<u8>>)
    requires
        0 <= j < items.len(),
    ensures
        match prune_item(items[j], removed_set(graph_of(items), names), names) {
            Some(x) => forall|e: ExportEntryV| #[trigger] item_exports(x).contains(e)
                ==> !name_in(names, e.name),
            None => true,
        },
{
    let rem = removed_set(graph_of(items), names);
    let item = items[j];
    match prune_item(item, rem, names) {
        Some(x) => {
            match item.kind {
                ItemKindV::ExportDecl { decl } => {
                    match decl {
                        DeclV::Class { binding, refs } => {
                            assert forall|e: ExportEntryV|
                                #[trigger] item_exports(x).contains(e) implies !name_in(
                                names,
                                e.name,
                            ) by {
                                assert(!rem.contains(binding.id));
                                assert(e == item_exports(x)[0]);
                                assert(e == item_exports(item)[0]);
                                assert(item_exports(item).contains(e));
                                if name_in(names, e.name) {
                                    lemma_item_entry_removed(items, j, e, names);
                                }
                            }
                        }
                        DeclV::Fn { binding, refs } => {
                            assert forall|e: ExportEntryV|
                                #[trigger] item_exports(x).contains(e) implies !name_in(
                                names,
                                e.name,
                            ) by {
                                assert(!rem.contains(binding.id));
                                assert(e == item_exports(x)[0]);
                                assert(e == item_exports(item)[0]);
                                assert(item_exports(item).contains(e));
                                if name_in(names, e.name) {
                                    lemma_item_entry_removed(items, j, e, names);
                                }
                            }
                        }
                        DeclV::Var { kind, decls } => {
                            let pruned = prune_declarators(decls, rem);
                            assert forall|e: ExportEntryV|
                                #[trigger] item_exports(x).contains(e) implies !name_in(
                                names,
                                e.name,
                            ) by {
                                assert(declarators_exports(pruned).contains(e));
                                lemma_declarators_exports_elem(pruned, e);
                                let m = choose|m: int|
                                    0 <= m < pruned.len() && #[trigger] bindings_entries(
                                        pat_bindings(pruned[m].pat),
                                    ).contains(e);
                                assert(pruned.contains(pruned[m]));
                                lemma_prune_declarators_elem(decls, rem, pruned[m]);
                                let m0 = choose|m0: int|
                                    0 <= m0 < decls.len() && !prune_pat(
                                        (#[trigger] decls[m0]).pat,
                                        rem,
                                    ).1 && pruned[m] == (VarDeclaratorV {
                                        tag: decls[m0].tag,
                                        pat: prune_pat(decls[m0].pat, rem).0,
                                        init_refs: decls[m0].init_refs,
                                    });
                                let bs = pat_bindings(prune_pat(decls[m0].pat, rem).0);
                                lemma_bindings_entries_index(bs);
                                let i = choose|i: int|
                                    0 <= i < bindings_entries(bs).len() && bindings_entries(
                                        bs,
                                    )[i] == e;
                                let b = bs[i];
                                assert(bs.contains(b));
                                lemma_prune_pat_bindings(decls[m0].pat, rem);
                                assert(pat_bindings(decls[m0].pat).contains(b));
                                assert(!rem.contains(b.id));
                                if name_in(names, e.name) {
                                    let obs = pat_bindings(decls[m0].pat);
                                    let i0 = choose|i0: int|
                                        0 <= i0 < obs.len() && obs[i0] == b;
                                    lemma_bindings_entries_index(obs);
                                    assert(bindings_entries(obs)[i0] == e);
                                    assert(bindings_entries(obs).contains(e));
                                    lemma_declarators_exports_elem(decls, e);
                                    assert(item_exports(item).contains(e));
                                    lemma_item_entry_removed(items, j, e, names);
                                }
                            }
                        }
                    }
                }
                ItemKindV::ExportNamed { has_src, specifiers } => {
                    let ks = prune_export_specs(specifiers, names);
                    lemma_prune_export_specs_clean(specifiers, names);
                    lemma_specs_exports_clean(ks, names);
                    assert forall|e: ExportEntryV|
                        #[trigger] item_exports(x).contains(e) implies !name_in(
                        names,
                        e.name,
                    ) by {
                        assert(specs_exports(ks).contains(e));
                    }
                }
                _ => {
                    assert forall|e: ExportEntryV|
                        #[trigger] item_exports(x).contains(e) implies !name_in(
                        names,
                        e.name,
                    ) by {
                        assert(item_exports(x).len() == 0);
                    }
                }
            }
        }
        None => {}
    }
}

/// A pruned item stands for one original item.
proof fn lemma_prune_items_elem(
    items: Seq<ItemV>,
    rem: Set<u64>,
    names: Seq<Seq<u8>>,
    x: ItemV,
)
    ensures
        prune_items(items, rem, names).contains(x) ==> exists|j: int|
            0 <= j < items.len() && prune_item(#[trigger] items[j], rem, names) == Some(x),
    decreases items,
{
    if items.len() > 0 && prune_items(items, rem, names).contains(x) {
        lemma_prune_items_elem(items.drop_last(), rem, names, x);
        let r1 = prune_items(items.drop_last(), rem, names);
        let r = prune_items(items, rem, names);
        match prune_item(items.last(), rem, names) {
            Some(y) => {
                assert(r.drop_last() =~= r1);
                let i = choose|i: int| 0 <= i < r.len() && r[i] == x;
                if i < r.len() - 1 {
                    assert(r1.contains(x));
                    let j = choose|j: int|
                        0 <= j < items.drop_last().len() && prune_item(
                            #[trigger] items.drop_last()[j],
                            rem,
                            names,
                        ) == Some(x);
                    assert(items[j] == items.drop_last()[j]);
                } else {
                    assert(x == y);
                    assert(prune_item(items[items.len() - 1], rem, names) == Some(x));
                }
            }
            None => {
                assert(r == r1);
                let j = choose|j: int|
                    0 <= j < items.drop_last().len() && prune_item(
                        #[trigger] items.drop_last()[j],
                        rem,
                        names,
                    ) == Some(x);
                assert(items[j] == items.drop_last()[j]);
            }
        }
    }
}

/// An entry of the whole module comes from one of its items.
proof fn lemma_items_exports_elem(items: Seq<ItemV>, e: ExportEntryV)
    ensures
        items_exports(items).contains(e) ==> exists|x: ItemV|
            #[trigger] items.contains(x) && item_exports(x).contains(e),
    decreases items,
{
    if items.len() > 0 && items_exports(items).contains(e) {
        lemma_items_exports_elem(items.drop_last(), e);
        lemma_contains_concat(items_exports(items.drop_last()), item_exports(items.last()), e);
        if items_exports(items.drop_last()).contains(e) {
            let x = choose|x: ItemV|
                #[trigger] items.drop_last().contains(x) && item_exports(x).contains(e);
            let j = choose|j: int| 0 <= j < items.drop_last().len() && items.drop_last()[j] == x;
            assert(items[j] == x);
            assert(items.contains(x));
        } else {
            assert(items.contains(items.last()));
        }
    }
}

/// With the default export removed, the pruned module has none left.
proof fn lemma_pruned_no_defaults(items: Seq<ItemV>, rem: Set<u64>, names: Seq<Seq<u8>>)
    requires
        removing_default(names),
    ensures
        items_defaults(prune_items(items, rem, names)) == Set::<u64>::empty(),
    decreases items,
{
    if items.len() > 0 {
        lemma_pruned_no_defaults(items.drop_last(), rem, names);
        let r1 = prune_items(items.drop_last(), rem, names);
        let r = prune_items(items, rem, names);
        match prune_item(items.last(), rem, names) {
            Some(x) => {
                assert(r.drop_last() =~= r1);
                assert(item_defaults(x) =~= Set::<u64>::empty());
                assert(items_defaults(r) =~= Set::<u64>::empty());
            }
            None => {
                assert(items_defaults(r) =~= Set::<u64>::empty());
            }
        }
    } else {
        assert(prune_items(items, rem, names) =~= Seq::<ItemV>::empty());
    }
}

/// A second solve over the pruned module removes nothing: every removed
/// export name is gone, and with it every seed.
proof fn lemma_removed_again_empty(items: Seq<ItemV>, names: Seq<Seq<u8>>)
    ensures
        removed_set(
            graph_of(prune_items(items, removed_set(graph_of(items), names), names)),
            names,
        ) == Set::<u64>::empty(),
{
    let rem = removed_set(graph_of(items), names);
    let out = prune_items(items, rem, names);
    let g2 = graph_of(out);
    lemma_graph_add_items_effect(empty_graph(), out);
    assert(g2.exports =~= items_exports(out));
    // every entry of the pruned module is clean
    assert forall|k: int| 0 <= k < g2.exports.len() implies !name_in(
        names,
        (#[trigger] g2.exports[k]).name,
    ) by {
        let e = g2.exports[k];
        assert(items_exports(out).contains(e));
        lemma_items_exports_elem(out, e);
        let x = choose|x: ItemV| #[trigger] out.contains(x) && item_exports(x).contains(e);
        lemma_prune_items_elem(items, rem, names, x);
        let j = choose|j: int|
            0 <= j < items.len() && prune_item(#[trigger] items[j], rem, names) == Some(x);
        lemma_pruned_item_clean(items, j, names);
    }
    lemma_matched_empty(g2.exports, names);
    // the default part of the seeds is empty too
    if removing_default(names) {
        lemma_pruned_no_defaults(items, rem, names);
        assert(g2.defaults =~= Set::<u64>::empty());
    }
    assert(seed_base(g2, names) =~= Set::<u64>::empty());
    // nothing is reached from nothing
    assert(reach_closed(g2.decl_refs, live_set(g2, names), Set::<u64>::empty()));
    assert(reach_ok(seed_base(g2, names), g2.decl_refs, live_set(g2, names), Set::<u64>::empty()));
    lemma_reach_minimal(
        seed_base(g2, names),
        g2.decl_refs,
        live_set(g2, names),
        Set::<u64>::empty(),
    );
    assert(removed_set(g2, names) =~= Set::<u64>::empty());
}

/// Removing the same exports twice is the same as removing them once: the
/// first pass leaves no removed export name and no seed for the second.
pub proof fn lemma_remove_exports_idempotent(items: Seq<ItemV>, names: Seq<Seq<u8>>)
    ensures
        crate::remove_exports_spec(crate::remove_exports_spec(items, names), names)
            == crate::remove_exports_spec(items, names),
{
    let rem = removed_set(graph_of(items), names);
    let out = prune_items(items, rem, names);
    lemma_removed_again_empty(items, names);
    lemma_prune_items_again(items, rem, names);
}

} // verus!
