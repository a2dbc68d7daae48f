use vstd::prelude::*;

use crate::model::{
    binding_view, contains_id, contains_name, copy_binding, copy_bytes, copy_ids, default_name,
    ids_set, item_view, item_wf, items_view, items_wf, lemma_ids_set_contains,
    lemma_pat_opt_seq_view_index, lemma_prop_seq_view_index, name_in, names_view, pat_view,
    prop_view, Binding, Decl, DeclV, ExportSpecifier, ExportSpecifierV, ImportSpecifier,
    ImportSpecifierV, Item, ItemKind, ItemKindV, ItemV, ObjectPatProp, ObjectPatPropV, Pat, PatV,
    VarDeclarator, VarDeclaratorV,
};
use crate::solver::RemoveVisitor;

verus! {

broadcast use vstd::seq::axiom_seq_index_decreases, vstd::seq::axiom_seq_subrange_decreases, vstd::std_specs::vec::axiom_vec_index_decreases, vstd::std_specs::vec::axiom_vec_decreases_to_view;

// ---------------------------------------------------------------------------
// The tree pruner.
//
// A second pass over the items deletes or edits each one under the removal
// set and the removal request: declarations of removed bindings are deleted;
// binding patterns are edited, an array element leaving a hole; named-export
// specifiers are dropped by name, the statement once empty; the default
// export is dropped when requested; an import loses removed specifiers and
// is deleted once it loses them all; any other statement stays.
// ---------------------------------------------------------------------------

/// The effective exported name of a specifier: the alias if present, else
/// the original name.
pub open spec fn effective_name(s: ExportSpecifierV) -> Seq<u8> {
    match s {
        ExportSpecifierV::Named { tag, orig, exported } => match exported {
            Some(n) => n,
            None => orig.name,
        },
        ExportSpecifierV::Namespace { tag, name } => name,
    }
}

/// Prunes a pattern: the edited pattern, and whether it is emptied and its
/// declarator falls.
pub open spec fn prune_pat(p: PatV, rem: Set<u64>) -> (PatV, bool)
    decreases p,
{
    match p {
        PatV::Ident { binding } => (p, rem.contains(binding.id)),
        PatV::Array { elems } => {
            let es = prune_elems(elems, rem);
            (PatV::Array { elems: es }, all_none(es))
        }
        PatV::Rest { arg } => {
            let (a, dropped) = prune_pat(*arg, rem);
            (PatV::Rest { arg: Box::new(a) }, dropped)
        }
        PatV::Object { props } => {
            let ps = prune_props(props, rem);
            (PatV::Object { props: ps }, ps.len() == 0)
        }
        PatV::Assign { left, refs } => {
            let (l, dropped) = prune_pat(*left, rem);
            (PatV::Assign { left: Box::new(l), refs }, dropped)
        }
    }
}

/// Prunes array elements in place: a removed element becomes a hole, so the
/// positions of the survivors are kept.
pub open spec fn prune_elems(s: Seq<Option<PatV>>, rem: Set<u64>) -> Seq<Option<PatV>>
    decreases s,
{
    if s.len() == 0 {
        seq![]
    } else {
        prune_elems(s.drop_last(), rem).push(
            match s.last() {
                None => None,
                Some(q) => {
                    let (q2, dropped) = prune_pat(q, rem);
                    if dropped {
                        None
                    } else {
                        Some(q2)
                    }
                }
            },
        )
    }
}

/// Whether an array pattern holds only holes.
pub open spec fn all_none(s: Seq<Option<PatV>>) -> bool {
    forall|i: int| 0 <= i < s.len() ==> s[i] is None
}

/// Prunes object properties: a removed property is deleted outright.
pub open spec fn prune_props(s: Seq<ObjectPatPropV>, rem: Set<u64>) -> Seq<ObjectPatPropV>
    decreases s,
{
    if s.len() == 0 {
        seq![]
    } else {
        let r = prune_props(s.drop_last(), rem);
        match s.last() {
            ObjectPatPropV::KeyValue { tag, pat } => {
                let (p2, dropped) = prune_pat(pat, rem);
                if dropped {
                    r
                } else {
                    r.push(ObjectPatPropV::KeyValue { tag, pat: p2 })
                }
            }
            ObjectPatPropV::Assign { tag, key, refs } => if rem.contains(key.id) {
                r
            } else {
                r.push(s.last())
            },
            ObjectPatPropV::Rest { tag, arg } => {
                let (a2, dropped) = prune_pat(*arg, rem);
                if dropped {
                    r
                } else {
                    r.push(ObjectPatPropV::Rest { tag, arg: Box::new(a2) })
                }
            }
        }
    }
}

/// Prunes declarators: one whose pattern is emptied is dropped.
pub open spec fn prune_declarators(s: Seq<VarDeclaratorV>, rem: Set<u64>) -> Seq<VarDeclaratorV>
    decreases s,
{
    if s.len() == 0 {
        seq![]
    } else {
        let r = prune_declarators(s.drop_last(), rem);
        let (p2, dropped) = prune_pat(s.last().pat, rem);
        if dropped {
            r
        } else {
            r.push(VarDeclaratorV { tag: s.last().tag, pat: p2, init_refs: s.last().init_refs })
        }
    }
}

/// Prunes a declaration; `None` deletes it.
pub open spec fn prune_decl(d: DeclV, rem: Set<u64>) -> Option<DeclV> {
    match d {
        DeclV::Class { binding, refs } => if rem.contains(binding.id) {
            None
        } else {
            Some(d)
        },
        DeclV::Fn { binding, refs } => if rem.contains(binding.id) {
            None
        } else {
            Some(d)
        },
        DeclV::Var { kind, decls } => {
            let ds = prune_declarators(decls, rem);
            if ds.len() == 0 {
                None
            } else {
                Some(DeclV::Var { kind, decls: ds })
            }
        }
    }
}

/// Keeps the import specifiers whose local binding stays.
pub open spec fn prune_import_specs(s: Seq<ImportSpecifierV>, rem: Set<u64>) -> Seq<
    ImportSpecifierV,
>
    decreases s,
{
    if s.len() == 0 {
        seq![]
    } else {
        let r = prune_import_specs(s.drop_last(), rem);
        if rem.contains(s.last().local.id) {
            r
        } else {
            r.push(s.last())
        }
    }
}

/// Keeps the export specifiers whose effective name is not removed.
pub open spec fn prune_export_specs(s: Seq<ExportSpecifierV>, names: Seq<Seq<u8>>) -> Seq<
    ExportSpecifierV,
>
    decreases s,
{
    if s.len() == 0 {
        seq![]
    } else {
        let r = prune_export_specs(s.drop_last(), names);
        if name_in(names, effective_name(s.last())) {
            r
        } else {
            r.push(s.last())
        }
    }
}

/// Prunes one top-level item; `None` deletes it.
pub open spec fn prune_item(item: ItemV, rem: Set<u64>, names: Seq<Seq<u8>>) -> Option<ItemV> {
    match item.kind {
        ItemKindV::Import { specifiers } => {
            let ks = prune_import_specs(specifiers, rem);
            if specifiers.len() > 0 && ks.len() == 0 {
                None
            } else {
                Some(ItemV { tag: item.tag, kind: ItemKindV::Import { specifiers: ks } })
            }
        }
        ItemKindV::Decl { decl } => match prune_decl(decl, rem) {
            Some(d) => Some(ItemV { tag: item.tag, kind: ItemKindV::Decl { decl: d } }),
            None => None,
        },
        ItemKindV::ExportDecl { decl } => match prune_decl(decl, rem) {
            Some(d) => Some(ItemV { tag: item.tag, kind: ItemKindV::ExportDecl { decl: d } }),
            None => None,
        },
        ItemKindV::ExportNamed { has_src, specifiers } => {
            let ks = prune_export_specs(specifiers, names);
            if ks.len() == 0 {
                None
            } else {
                Some(
                    ItemV {
                        tag: item.tag,
                        kind: ItemKindV::ExportNamed { has_src, specifiers: ks },
                    },
                )
            }
        }
        ItemKindV::ExportDefaultDecl { kind, binding, refs } => if name_in(
            names,
            default_name(),
        ) {
            None
        } else {
            Some(item)
        },
        ItemKindV::ExportDefaultExpr { refs } => if name_in(names, default_name()) {
            None
        } else {
            Some(item)
        },
        ItemKindV::ExportAll => Some(item),
        ItemKindV::Stmt { refs } => Some(item),
    }
}

/// Prunes the item list in order.
pub open spec fn prune_items(items: Seq<ItemV>, rem: Set<u64>, names: Seq<Seq<u8>>) -> Seq<ItemV>
    decreases items,
{
    if items.len() == 0 {
        seq![]
    } else {
        let r = prune_items(items.drop_last(), rem, names);
        match prune_item(items.last(), rem, names) {
            Some(x) => r.push(x),
            None => r,
        }
    }
}

// ---------------------------------------------------------------------------
// Copies of model values, view for view.
// ---------------------------------------------------------------------------

/// Copies a pattern.
pub fn copy_pat(p: &Pat) -> (r: Pat)
    ensures
        pat_view(r) == pat_view(*p),
    decreases *p,
{
    match p {
        Pat::Ident { binding } => Pat::Ident { binding: copy_binding(binding) },
        Pat::Array { elems } => {
            let ghost ev = crate::model::pat_opt_seq_view(elems@);
            proof {
                lemma_pat_opt_seq_view_index(elems@);
            }
            let mut es: Vec<Option<Pat>> = Vec::new();
            let mut i: usize = 0;
            assert(crate::model::pat_opt_seq_view(es@) =~= ev.take(0int));
            while i < elems.len()
                invariant
                    i <= elems.len(),
                    crate::model::pat_opt_seq_view(es@) == ev.take(i as int),
                decreases elems.len() - i,
            {
                proof {
                    assert(decreases_to!(*p => *elems));
                    assert(decreases_to!(*elems => elems@));
                    assert(decreases_to!(elems@ => elems@[i as int]));
                }
                let ghost es0 = es@;
                match &elems[i] {
                    Some(q) => {
                        proof {
                            assert(decreases_to!(elems@[i as int] => *q));
                        }
                        let c = copy_pat(q);
                        es.push(Some(c));
                    }
                    None => {
                        es.push(None);
                    }
                }
                i = i + 1;
                proof {
                    assert(es@.drop_last() =~= es0);
                    assert(ev.take(i as int).drop_last() =~= ev.take(i - 1));
                    assert(ev.take(i as int).last() == ev[i - 1]);
                    assert(crate::model::pat_opt_seq_view(es@) =~= ev.take(i as int));
                }
            }
            proof {
                assert(ev.take(ev.len() as int) =~= ev);
            }
            let r = Pat::Array { elems: es };
            proof {
                assert(pat_view(r) =~= pat_view(*p));
            }
            r
        }
        Pat::Rest { arg } => {
            proof {
                assert(decreases_to!(*p => **arg));
            }
            Pat::Rest { arg: Box::new(copy_pat(arg)) }
        }
        Pat::Object { props } => {
            let ghost pv = crate::model::prop_seq_view(props@);
            proof {
                lemma_prop_seq_view_index(props@);
            }
            let mut ps: Vec<ObjectPatProp> = Vec::new();
            let mut i: usize = 0;
            assert(crate::model::prop_seq_view(ps@) =~= pv.take(0int));
            while i < props.len()
                invariant
                    i <= props.len(),
                    crate::model::prop_seq_view(ps@) == pv.take(i as int),
                decreases props.len() - i,
            {
                proof {
                    assert(decreases_to!(*p => *props));
                    assert(decreases_to!(*props => props@));
                    assert(decreases_to!(props@ => props@[i as int]));
                }
                let ghost ps0 = ps@;
                match &props[i] {
                    ObjectPatProp::KeyValue { tag, pat } => {
                        proof {
                            assert(decreases_to!(props@[i as int] => *pat));
                        }
                        let c = copy_pat(pat);
                        ps.push(ObjectPatProp::KeyValue { tag: *tag, pat: c });
                        proof {
                            assert(prop_view(ps@.last()) == pv[i as int]);
                        }
                    }
                    ObjectPatProp::Assign { tag, key, refs } => {
                        ps.push(
                            ObjectPatProp::Assign {
                                tag: *tag,
                                key: copy_binding(key),
                                refs: copy_ids(refs),
                            },
                        );
                        proof {
                            assert(prop_view(ps@.last()) == pv[i as int]);
                        }
                    }
                    ObjectPatProp::Rest { tag, arg } => {
                        proof {
                            assert(decreases_to!(props@[i as int] => **arg));
                        }
                        let c = copy_pat(arg);
                        ps.push(ObjectPatProp::Rest { tag: *tag, arg: Box::new(c) });
                        proof {
                            assert(prop_view(ps@.last()) == pv[i as int]);
                        }
                    }
                }
                i = i + 1;
                proof {
                    assert(ps@.drop_last() =~= ps0);
                    assert(pv.take(i as int).drop_last() =~= pv.take(i - 1));
                    assert(pv.take(i as int).last() == pv[i - 1]);
                    assert(crate::model::prop_seq_view(ps@) =~= pv.take(i as int));
                }
            }
            proof {
                assert(pv.take(pv.len() as int) =~= pv);
            }
            let r = Pat::Object { props: ps };
            proof {
                assert(pat_view(r) =~= pat_view(*p));
            }
            r
        }
        Pat::Assign { left, refs } => {
            proof {
                assert(decreases_to!(*p => **left));
            }
            Pat::Assign { left: Box::new(copy_pat(left)), refs: copy_ids(refs) }
        }
    }
}

// ---------------------------------------------------------------------------
// The executable pruner.
// ---------------------------------------------------------------------------

impl RemoveVisitor {
    /// The removal set, as a set.
    pub open spec fn rem(&self) -> Set<u64> {
        ids_set(self.ids@)
    }

    /// The removal request, as names.
    pub open spec fn removal_names(&self) -> Seq<Seq<u8>> {
        names_view(self.names@)
    }

    /// Whether a binding is to be deleted.
    pub fn should_remove_ident(&self, b: &Binding) -> (r: bool)
        ensures
            r == self.rem().contains(b.id),
    {
        proof {
            lemma_ids_set_contains(self.ids@, b.id);
        }
        contains_id(&self.ids, b.id)
    }

    /// Whether an export specifier's effective name is removed.
    pub fn should_remove_module_export(&self, s: &ExportSpecifier) -> (r: bool)
        ensures
            r == name_in(self.removal_names(), effective_name(crate::model::export_specifier_view(*s))),
    {
        match s {
            ExportSpecifier::Named { tag, orig, exported } => match exported {
                Some(n) => contains_name(&self.names, n),
                None => contains_name(&self.names, &orig.name),
            },
            ExportSpecifier::Namespace { tag, name } => contains_name(&self.names, name),
        }
    }

    /// Prunes a pattern: the edited pattern, and whether it is emptied.
    pub fn should_remove_pat(&self, p: &Pat) -> (r: (Pat, bool))
        ensures
            pat_view(r.0) == prune_pat(pat_view(*p), self.rem()).0,
            r.1 == prune_pat(pat_view(*p), self.rem()).1,
        decreases *p,
    {
        match p {
            Pat::Ident { binding } => {
                let rm = self.should_remove_ident(binding);
                (Pat::Ident { binding: copy_binding(binding) }, rm)
            }
            Pat::Array { elems } => {
                let ghost ev = crate::model::pat_opt_seq_view(elems@);
                proof {
                    lemma_pat_opt_seq_view_index(elems@);
                }
                let mut es: Vec<Option<Pat>> = Vec::new();
                let mut holes_only = true;
                let mut i: usize = 0;
                assert(crate::model::pat_opt_seq_view(es@) =~= prune_elems(ev.take(0int), self.rem()));
                while i < elems.len()
                    invariant
                        i <= elems.len(),
                        crate::model::pat_opt_seq_view(es@) == prune_elems(
                            ev.take(i as int),
                            self.rem(),
                        ),
                        es@.len() == i,
                        holes_only == all_none(prune_elems(ev.take(i as int), self.rem())),
                    decreases elems.len() - i,
                {
                    proof {
                        assert(decreases_to!(*p => *elems));
                        assert(decreases_to!(*elems => elems@));
                        assert(decreases_to!(elems@ => elems@[i as int]));
                    }
                    let ghost es0 = es@;
                    let ghost holes0 = holes_only;
                    match &elems[i] {
                        Some(q) => {
                            proof {
                                assert(decreases_to!(elems@[i as int] => *q));
                            }
                            let (q2, dropped) = self.should_remove_pat(q);
                            if dropped {
                                es.push(None);
                            } else {
                                es.push(Some(q2));
                                holes_only = false;
                            }
                        }
                        None => {
                            es.push(None);
                        }
                    }
                    i = i + 1;
                    proof {
                        assert(es@.drop_last() =~= es0);
                        assert(ev.take(i as int).drop_last() =~= ev.take(i - 1));
                        assert(ev.take(i as int).last() == ev[i - 1]);
                        let pe1 = prune_elems(ev.take(i - 1), self.rem());
                        let pe = prune_elems(ev.take(i as int), self.rem());
                        assert(pe == pe1.push(pe.last()));
                        assert(crate::model::pat_opt_seq_view(es@) =~= pe);
                        assert(es@.last() is None <==> pe.last() is None) by {
                            crate::model::lemma_pat_opt_seq_view_index(es@);
                        }
                        if holes0 && es@.last() is None {
                            assert forall|j: int| 0 <= j < pe.len() implies pe[j] is None by {
                                if j < pe.len() - 1 {
                                    assert(pe1[j] is None);
                                    assert(pe[j] == pe1[j]);
                                }
                            }
                            assert(all_none(pe));
                        }
                        if !holes0 {
                            let j = choose|j: int| 0 <= j < pe1.len() && !(pe1[j] is None);
                            assert(pe[j] == pe1[j]);
                            assert(!all_none(pe));
                        }
                        if !(es@.last() is None) {
                            assert(!(pe[pe.len() - 1] is None));
                            assert(!all_none(pe));
                        }
                        assert(holes_only == all_none(pe));
                    }
                }
                proof {
                    assert(ev.take(ev.len() as int) =~= ev);
                }
                let r = Pat::Array { elems: es };
                proof {
                    assert(pat_view(r) =~= prune_pat(pat_view(*p), self.rem()).0);
                }
                (r, holes_only)
            }
            Pat::Rest { arg } => {
                proof {
                    assert(decreases_to!(*p => **arg));
                }
                let (a2, dropped) = self.should_remove_pat(arg);
                (Pat::Rest { arg: Box::new(a2) }, dropped)
            }
            Pat::Object { props } => {
                let ghost pv = crate::model::prop_seq_view(props@);
                proof {
                    lemma_prop_seq_view_index(props@);
                }
                let mut ps: Vec<ObjectPatProp> = Vec::new();
                let mut i: usize = 0;
                assert(crate::model::prop_seq_view(ps@) =~= prune_props(pv.take(0int), self.rem()));
                while i < props.len()
                    invariant
                        i <= props.len(),
                        crate::model::prop_seq_view(ps@) == prune_props(
                            pv.take(i as int),
                            self.rem(),
                        ),
                    decreases props.len() - i,
                {
                    proof {
                        assert(decreases_to!(*p => *props));
                        assert(decreases_to!(*props => props@));
                        assert(decreases_to!(props@ => props@[i as int]));
                    }
                    let ghost ps0 = ps@;
                    match &props[i] {
                        ObjectPatProp::KeyValue { tag, pat } => {
                            proof {
                                assert(decreases_to!(props@[i as int] => *pat));
                            }
                            let (p2, dropped) = self.should_remove_pat(pat);
                            if !dropped {
                                ps.push(ObjectPatProp::KeyValue { tag: *tag, pat: p2 });
                                proof {
                                    assert(ps@.drop_last() =~= ps0);
                                    assert(prop_view(ps@.last()) == (ObjectPatPropV::KeyValue {
                                        tag: pv[i as int]->KeyValue_tag,
                                        pat: prune_pat(pv[i as int]->KeyValue_pat, self.rem()).0,
                                    }));
                                }
                            }
                        }
                        ObjectPatProp::Assign { tag, key, refs } => {
                            if !self.should_remove_ident(key) {
                                ps.push(
                                    ObjectPatProp::Assign {
                                        tag: *tag,
                                        key: copy_binding(key),
                                        refs: copy_ids(refs),
                                    },
                                );
                                proof {
                                    assert(ps@.drop_last() =~= ps0);
                                    assert(prop_view(ps@.last()) == pv[i as int]);
                                }
                            }
                        }
                        ObjectPatProp::Rest { tag, arg } => {
                            proof {
                                assert(decreases_to!(props@[i as int] => **arg));
                            }
                            let (a2, dropped) = self.should_remove_pat(arg);
                            if !dropped {
                                ps.push(ObjectPatProp::Rest { tag: *tag, arg: Box::new(a2) });
                                proof {
                                    assert(ps@.drop_last() =~= ps0);
                                    assert(prop_view(ps@.last()) == (ObjectPatPropV::Rest {
                                        tag: pv[i as int]->Rest_tag,
                                        arg: Box::new(prune_pat(*pv[i as int]->Rest_arg, self.rem()).0),
                                    }));
                                }
                            }
                        }
                    }
                    i = i + 1;
                    proof {
                        assert(pv.take(i as int).drop_last() =~= pv.take(i - 1));
                        assert(pv.take(i as int).last() == pv[i - 1]);
                        assert(crate::model::prop_seq_view(ps@) =~= prune_props(
                            pv.take(i as int),
                            self.rem(),
                        ));
                    }
                }
                proof {
                    assert(pv.take(pv.len() as int) =~= pv);
                }
                let empty = ps.len() == 0;
                let r = Pat::Object { props: ps };
                proof {
                    assert(pat_view(r) =~= prune_pat(pat_view(*p), self.rem()).0);
                }
                (r, empty)
            }
            Pat::Assign { left, refs } => {
                proof {
                    assert(decreases_to!(*p => **left));
                }
                let (l2, dropped) = self.should_remove_pat(left);
                (Pat::Assign { left: Box::new(l2), refs: copy_ids(refs) }, dropped)
            }
        }
    }

    /// Prunes a declaration; `None` deletes it.
    fn prune_decl_exec(&self, d: &Decl) -> (r: Option<Decl>)
        ensures
            match r {
                Some(d2) => prune_decl(crate::model::decl_view(*d), self.rem()) == Some(
                    crate::model::decl_view(d2),
                ),
                None => prune_decl(crate::model::decl_view(*d), self.rem()) is None,
            },
    {
        match d {
            Decl::Class { binding, refs } => {
                if self.should_remove_ident(binding) {
                    None
                } else {
                    Some(Decl::Class { binding: copy_binding(binding), refs: copy_ids(refs) })
                }
            }
            Decl::Fn { binding, refs } => {
                if self.should_remove_ident(binding) {
                    None
                } else {
                    Some(Decl::Fn { binding: copy_binding(binding), refs: copy_ids(refs) })
                }
            }
            Decl::Var { kind, decls } => {
                let ghost dv = crate::model::declarators_view(decls@);
                let mut ds: Vec<VarDeclarator> = Vec::new();
                let mut i: usize = 0;
                assert(crate::model::declarators_view(ds@) =~= prune_declarators(
                    dv.take(0int),
                    self.rem(),
                ));
                while i < decls.len()
                    invariant
                        i <= decls.len(),
                        crate::model::declarators_view(ds@) == prune_declarators(
                            dv.take(i as int),
                            self.rem(),
                        ),
                    decreases decls.len() - i,
                {
                    let d1 = &decls[i];
                    let ghost ds0 = ds@;
                    let (p2, dropped) = self.should_remove_pat(&d1.pat);
                    if !dropped {
                        ds.push(
                            VarDeclarator { tag: d1.tag, pat: p2, init_refs: copy_ids(&d1.init_refs) },
                        );
                    }
                    i = i + 1;
                    proof {
                        assert(dv.take(i as int).drop_last() =~= dv.take(i - 1));
                        assert(dv.take(i as int).last() == dv[i - 1]);
                        assert(dv[i - 1] == crate::model::declarator_view(decls@[i - 1]));
                        if !dropped {
                            assert(ds@.drop_last() =~= ds0);
                        }
                        assert(crate::model::declarators_view(ds@) =~= prune_declarators(
                            dv.take(i as int),
                            self.rem(),
                        ));
                    }
                }
                proof {
                    assert(dv.take(dv.len() as int) =~= dv);
                }
                if ds.len() == 0 {
                    None
                } else {
                    Some(Decl::Var { kind: *kind, decls: ds })
                }
            }
        }
    }

    /// Prunes one top-level item; `None` deletes it.
    pub fn should_remove_module_decl(&self, item: &Item) -> (r: Option<Item>)
        ensures
            match r {
                Some(x) => prune_item(item@, self.rem(), self.removal_names()) == Some(x@),
                None => prune_item(item@, self.rem(), self.removal_names()) is None,
            },
    {
        match &item.kind {
            ItemKind::Import { specifiers } => {
                let ghost sv = crate::model::import_specifiers_view(specifiers@);
                let mut ks: Vec<ImportSpecifier> = Vec::new();
                let mut i: usize = 0;
                assert(crate::model::import_specifiers_view(ks@) =~= prune_import_specs(
                    sv.take(0int),
                    self.rem(),
                ));
                while i < specifiers.len()
                    invariant
                        i <= specifiers.len(),
                        crate::model::import_specifiers_view(ks@) == prune_import_specs(
                            sv.take(i as int),
                            self.rem(),
                        ),
                    decreases specifiers.len() - i,
                {
                    let s = &specifiers[i];
                    let ghost ks0 = ks@;
                    let keep = !self.should_remove_ident(&s.local);
                    if keep {
                        ks.push(
                            ImportSpecifier { tag: s.tag, kind: s.kind, local: copy_binding(&s.local) },
                        );
                    }
                    i = i + 1;
                    proof {
                        assert(sv.take(i as int).drop_last() =~= sv.take(i - 1));
                        assert(sv.take(i as int).last() == sv[i - 1]);
                        assert(sv[i - 1] == crate::model::import_specifier_view(specifiers@[i - 1]));
                        if keep {
                            assert(ks@.drop_last() =~= ks0);
                        }
                        assert(crate::model::import_specifiers_view(ks@) =~= prune_import_specs(
                            sv.take(i as int),
                            self.rem(),
                        ));
                    }
                }
                proof {
                    assert(sv.take(sv.len() as int) =~= sv);
                }
                if specifiers.len() > 0 && ks.len() == 0 {
                    None
                } else {
                    Some(Item { tag: item.tag, kind: ItemKind::Import { specifiers: ks } })
                }
            }
            ItemKind::Decl { decl } => match self.prune_decl_exec(decl) {
                Some(d2) => Some(Item { tag: item.tag, kind: ItemKind::Decl { decl: d2 } }),
                None => None,
            },
            ItemKind::ExportDecl { decl } => match self.prune_decl_exec(decl) {
                Some(d2) => Some(Item { tag: item.tag, kind: ItemKind::ExportDecl { decl: d2 } }),
                None => None,
            },
            ItemKind::ExportNamed { has_src, specifiers } => {
                let ghost sv = crate::model::export_specifiers_view(specifiers@);
                let mut ks: Vec<ExportSpecifier> = Vec::new();
                let mut i: usize = 0;
                assert(crate::model::export_specifiers_view(ks@) =~= prune_export_specs(
                    sv.take(0int),
                    self.removal_names(),
                ));
                while i < specifiers.len()
                    invariant
                        i <= specifiers.len(),
                        crate::model::export_specifiers_view(ks@) == prune_export_specs(
                            sv.take(i as int),
                            self.removal_names(),
                        ),
                    decreases specifiers.len() - i,
                {
                    let s = &specifiers[i];
                    let ghost ks0 = ks@;
                    let keep = !self.should_remove_module_export(s);
                    if keep {
                        let c = match s {
                            ExportSpecifier::Named { tag, orig, exported } => {
                                ExportSpecifier::Named {
                                    tag: *tag,
                                    orig: copy_binding(orig),
                                    exported: match exported {
                                        Some(n) => Some(copy_bytes(n)),
                                        None => None,
                                    },
                                }
                            }
                            ExportSpecifier::Namespace { tag, name } => ExportSpecifier::Namespace {
                                tag: *tag,
                                name: copy_bytes(name),
                            },
                        };
                        proof {
                            assert(crate::model::export_specifier_view(c)
                                == crate::model::export_specifier_view(specifiers@[i as int]));
                        }
                        ks.push(c);
                    }
                    i = i + 1;
                    proof {
                        assert(sv.take(i as int).drop_last() =~= sv.take(i - 1));
                        assert(sv.take(i as int).last() == sv[i - 1]);
                        assert(sv[i - 1] == crate::model::export_specifier_view(specifiers@[i - 1]));
                        if keep {
                            assert(ks@.drop_last() =~= ks0);
                        }
                        assert(crate::model::export_specifiers_view(ks@) =~= prune_export_specs(
                            sv.take(i as int),
                            self.removal_names(),
                        ));
                    }
                }
                proof {
                    assert(sv.take(sv.len() as int) =~= sv);
                }
                if ks.len() == 0 {
                    None
                } else {
                    Some(
                        Item {
                            tag: item.tag,
                            kind: ItemKind::ExportNamed { has_src: *has_src, specifiers: ks },
                        },
                    )
                }
            }
            ItemKind::ExportDefaultDecl { kind, binding, refs } => {
                let dflt = crate::model::default_name_bytes();
                if contains_name(&self.names, &dflt) {
                    None
                } else {
                    let b2 = match binding {
                        Some(b) => Some(copy_binding(b)),
                        None => None,
                    };
                    let r = Item {
                        tag: item.tag,
                        kind: ItemKind::ExportDefaultDecl {
                            kind: *kind,
                            binding: b2,
                            refs: copy_ids(refs),
                        },
                    };
                    proof {
                        assert(r@ =~= item@);
                    }
                    Some(r)
                }
            }
            ItemKind::ExportDefaultExpr { refs } => {
                let dflt = crate::model::default_name_bytes();
                if contains_name(&self.names, &dflt) {
                    None
                } else {
                    let r = Item {
                        tag: item.tag,
                        kind: ItemKind::ExportDefaultExpr { refs: copy_ids(refs) },
                    };
                    proof {
                        assert(r@ =~= item@);
                    }
                    Some(r)
                }
            }
            ItemKind::ExportAll => Some(Item { tag: item.tag, kind: ItemKind::ExportAll }),
            ItemKind::Stmt { refs } => {
                let r = Item { tag: item.tag, kind: ItemKind::Stmt { refs: copy_ids(refs) } };
                proof {
                    assert(r@ =~= item@);
                }
                Some(r)
            }
        }
    }

    /// Prunes the item list in place.
    pub fn visit_mut_module_items(&self, items: &mut Vec<Item>)
        ensures
            items_view(final(items)@) == prune_items(
                items_view(old(items)@),
                self.rem(),
                self.removal_names(),
            ),
    {
        let ghost iv = items_view(items@);
        let mut out: Vec<Item> = Vec::new();
        let mut i: usize = 0;
        assert(items_view(out@) =~= prune_items(iv.take(0int), self.rem(), self.removal_names()));
        while i < items.len()
            invariant
                i <= items.len(),
                iv == items_view(items@),
                items_view(out@) == prune_items(iv.take(i as int), self.rem(), self.removal_names()),
            decreases items.len() - i,
        {
            let ghost out0 = out@;
            let kept = self.should_remove_module_decl(&items[i]);
            let pushed = match kept {
                Some(x) => {
                    out.push(x);
                    true
                }
                None => false,
            };
            i = i + 1;
            proof {
                assert(iv.take(i as int).drop_last() =~= iv.take(i - 1));
                assert(iv.take(i as int).last() == iv[i - 1]);
                assert(iv[i - 1] == item_view(items@[i - 1]));
                if pushed {
                    assert(out@.drop_last() =~= out0);
                }
                assert(items_view(out@) =~= prune_items(
                    iv.take(i as int),
                    self.rem(),
                    self.removal_names(),
                ));
            }
        }
        proof {
            assert(iv.take(iv.len() as int) =~= iv);
        }
        *items = out;
    }
}

/// Pruning keeps every specifier of a local named export a named one.
proof fn lemma_prune_export_specs_named(s: Seq<ExportSpecifierV>, names: Seq<Seq<u8>>)
    requires
        forall|i: int| 0 <= i < s.len() ==> crate::model::specifier_is_named(#[trigger] s[i]),
    ensures
        forall|i: int|
            0 <= i < prune_export_specs(s, names).len() ==> crate::model::specifier_is_named(
                #[trigger] prune_export_specs(s, names)[i],
            ),
    decreases s,
{
    if s.len() > 0 {
        assert(forall|i: int|
            0 <= i < s.len() - 1 ==> crate::model::specifier_is_named(
                #[trigger] s.drop_last()[i],
            ));
        lemma_prune_export_specs_named(s.drop_last(), names);
        assert(crate::model::specifier_is_named(s[s.len() - 1]));
        let r = prune_export_specs(s, names);
        let r1 = prune_export_specs(s.drop_last(), names);
        assert forall|i: int| 0 <= i < r.len() implies crate::model::specifier_is_named(
            r[i],
        ) by {
            if !name_in(names, effective_name(s.last())) {
                if i < r.len() - 1 {
                    assert(r[i] == r1[i]);
                }
            } else {
                assert(r[i] == r1[i]);
            }
        }
    }
}

/// Pruning a well-formed item leaves a well-formed item.
proof fn lemma_prune_item_wf(item: ItemV, rem: Set<u64>, names: Seq<Seq<u8>>)
    requires
        item_wf(item),
    ensures
        match prune_item(item, rem, names) {
            Some(x) => item_wf(x),
            None => true,
        },
{
    match item.kind {
        ItemKindV::ExportNamed { has_src, specifiers } => {
            if !has_src {
                lemma_prune_export_specs_named(specifiers, names);
            }
        }
        _ => (),
    }
}

/// Pruning a well-formed module leaves a well-formed module.
pub proof fn lemma_prune_items_wf(items: Seq<ItemV>, rem: Set<u64>, names: Seq<Seq<u8>>)
    requires
        items_wf(items),
    ensures
        items_wf(prune_items(items, rem, names)),
    decreases items,
{
    if items.len() > 0 {
        assert(items_wf(items.drop_last())) by {
            assert(forall|i: int| 0 <= i < items.len() - 1 ==> item_wf(#[trigger] items.drop_last()[
                i]));
        }
        lemma_prune_items_wf(items.drop_last(), rem, names);
        assert(item_wf(items.last()));
        lemma_prune_item_wf(items.last(), rem, names);
    }
}

} // verus!
