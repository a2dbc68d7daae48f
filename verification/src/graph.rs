use vstd::prelude::*;

use crate::model::{
    attr_ops, binding_view, bindings_view, contains_id, copy_binding, copy_bytes, copy_ids, ids_set, lemma_ids_set_contains,
    lemma_bindings_view_index, lemma_pat_opt_seq_view_index, lemma_prop_seq_view_index, pat_bindings, pat_ids, pat_ops, prop_bindings,
    pat_opt_seq_bindings, pat_opt_seq_ops, pat_opt_seq_view, pat_view, prop_ops, prop_seq_bindings, prop_view,
    prop_seq_ops, prop_seq_view, Binding, BindingV, Decl, DeclV, ExportSpecifierV, ImportSpecifierV,
    decl_view, declarator_view, declarators_view, export_specifier_view, export_specifiers_view,
    import_specifier_view, import_specifiers_view, item_view, ExportSpecifier, Item, ItemKind,
    ItemKindV, ItemV, Module, ObjectPatProp, Pat, PatV, VarDeclaratorV,
};

verus! {

broadcast use vstd::seq::axiom_seq_index_decreases, vstd::seq::axiom_seq_subrange_decreases, vstd::std_specs::vec::axiom_vec_index_decreases, vstd::std_specs::vec::axiom_vec_decreases_to_view;

// ---------------------------------------------------------------------------
// The reference graph.
//
// One traversal of the module's top-level items yields: an edge map from
// each declared binding to the bindings its body or initializer references;
// the bindings referenced by non-declaration top-level statements; the
// bindings referenced by the default export; and the exported names, each
// with the binding it names and whether the export is the binding's own
// declaration (`export function foo` as opposed to `export { foo }`).
// ---------------------------------------------------------------------------

/// One exported name: the name, the binding it names, and whether the
/// export is the binding's own declaration.
#[derive(Debug)]
pub struct ExportEntry {
    pub name: Vec<u8>,
    pub id: u64,
    pub from_decl: bool,
}

#[verifier::ext_equal]
pub struct ExportEntryV {
    pub name: Seq<u8>,
    pub id: u64,
    pub from_decl: bool,
}

pub open spec fn entry_view(e: ExportEntry) -> ExportEntryV {
    ExportEntryV { name: e.name@, id: e.id, from_decl: e.from_decl }
}

pub open spec fn entries_view(s: Seq<ExportEntry>) -> Seq<ExportEntryV> {
    s.map_values(|e: ExportEntry| entry_view(e))
}

/// The mathematical reference graph.
#[verifier::ext_equal]
pub struct GraphV {
    /// Edges: each declared binding to the bindings it references.
    pub decl_refs: Map<u64, Set<u64>>,
    /// Bindings referenced by non-declaration top-level statements.
    pub globals: Set<u64>,
    /// Bindings referenced by the default export's value or body.
    pub defaults: Set<u64>,
    /// The exported names, in syntactic order.
    pub exports: Seq<ExportEntryV>,
}

pub open spec fn empty_graph() -> GraphV {
    GraphV {
        decl_refs: Map::empty(),
        globals: Set::empty(),
        defaults: Set::empty(),
        exports: seq![],
    }
}

/// Registers a binding and adds references to its edge set.
pub open spec fn insert_refs(g: GraphV, id: u64, refs: Seq<u64>) -> GraphV {
    GraphV {
        decl_refs: g.decl_refs.insert(
            id,
            (if g.decl_refs.dom().contains(id) {
                g.decl_refs[id]
            } else {
                Set::empty()
            }).union(ids_set(refs)),
        ),
        ..g
    }
}

/// Applies a sequence of reference attributions in order.
pub open spec fn apply_ops(g: GraphV, ops: Seq<(u64, Seq<u64>)>) -> GraphV
    decreases ops,
{
    if ops.len() == 0 {
        g
    } else {
        insert_refs(apply_ops(g, ops.drop_last()), ops.last().0, ops.last().1)
    }
}

pub open spec fn add_globals(g: GraphV, refs: Seq<u64>) -> GraphV {
    GraphV { globals: g.globals.union(ids_set(refs)), ..g }
}

pub open spec fn add_defaults(g: GraphV, refs: Seq<u64>) -> GraphV {
    GraphV { defaults: g.defaults.union(ids_set(refs)), ..g }
}

pub open spec fn add_export(g: GraphV, name: Seq<u8>, id: u64, from_decl: bool) -> GraphV {
    GraphV { exports: g.exports.push(ExportEntryV { name, id, from_decl }), ..g }
}

/// Registers each imported local binding as a graph leaf.
pub open spec fn apply_import_specs(g: GraphV, specs: Seq<ImportSpecifierV>) -> GraphV
    decreases specs,
{
    if specs.len() == 0 {
        g
    } else {
        insert_refs(apply_import_specs(g, specs.drop_last()), specs.last().local.id, seq![])
    }
}

/// Records each specifier of a local named export under its effective name.
pub open spec fn apply_export_specs(g: GraphV, specs: Seq<ExportSpecifierV>) -> GraphV
    decreases specs,
{
    if specs.len() == 0 {
        g
    } else {
        let g1 = apply_export_specs(g, specs.drop_last());
        match specs.last() {
            ExportSpecifierV::Named { tag, orig, exported } => add_export(
                g1,
                match exported {
                    Some(n) => n,
                    None => orig.name,
                },
                orig.id,
                false,
            ),
            ExportSpecifierV::Namespace { tag, name } => g1,
        }
    }
}

/// Records each binding of an exported declaration under its own name.
pub open spec fn add_export_bindings(g: GraphV, bs: Seq<BindingV>) -> GraphV
    decreases bs,
{
    if bs.len() == 0 {
        g
    } else {
        add_export(add_export_bindings(g, bs.drop_last()), bs.last().name, bs.last().id, true)
    }
}

/// The graph contribution of one variable declarator.
pub open spec fn apply_declarator(g: GraphV, d: VarDeclaratorV, exported: bool) -> GraphV {
    let g1 = apply_ops(g, pat_ops(d.pat));
    let g2 = apply_ops(g1, attr_ops(pat_ids(d.pat), d.init_refs));
    if exported {
        add_export_bindings(g2, pat_bindings(d.pat))
    } else {
        g2
    }
}

pub open spec fn apply_declarators(g: GraphV, decls: Seq<VarDeclaratorV>, exported: bool) -> GraphV
    decreases decls,
{
    if decls.len() == 0 {
        g
    } else {
        apply_declarator(apply_declarators(g, decls.drop_last(), exported), decls.last(), exported)
    }
}

/// The graph contribution of one declaration.
pub open spec fn apply_decl(g: GraphV, d: DeclV, exported: bool) -> GraphV {
    match d {
        DeclV::Class { binding, refs } => {
            let g1 = insert_refs(g, binding.id, refs);
            if exported {
                add_export(g1, binding.name, binding.id, true)
            } else {
                g1
            }
        }
        DeclV::Fn { binding, refs } => {
            let g1 = insert_refs(g, binding.id, refs);
            if exported {
                add_export(g1, binding.name, binding.id, true)
            } else {
                g1
            }
        }
        DeclV::Var { kind, decls } => apply_declarators(g, decls, exported),
    }
}

/// The graph contribution of one top-level item.
pub open spec fn graph_add(g: GraphV, item: ItemV) -> GraphV {
    match item.kind {
        ItemKindV::Import { specifiers } => apply_import_specs(g, specifiers),
        ItemKindV::Decl { decl } => apply_decl(g, decl, false),
        ItemKindV::ExportDecl { decl } => apply_decl(g, decl, true),
        ItemKindV::ExportNamed { has_src, specifiers } => if has_src {
            g
        } else {
            apply_export_specs(g, specifiers)
        },
        ItemKindV::ExportDefaultDecl { kind, binding, refs } => add_defaults(
            match binding {
                Some(b) => insert_refs(g, b.id, seq![]),
                None => g,
            },
            refs,
        ),
        ItemKindV::ExportDefaultExpr { refs } => add_defaults(g, refs),
        ItemKindV::ExportAll => g,
        ItemKindV::Stmt { refs } => add_globals(g, refs),
    }
}

pub open spec fn graph_add_items(g: GraphV, items: Seq<ItemV>) -> GraphV
    decreases items,
{
    if items.len() == 0 {
        g
    } else {
        graph_add(graph_add_items(g, items.drop_last()), items.last())
    }
}

/// The reference graph of a module.
pub open spec fn graph_of(items: Seq<ItemV>) -> GraphV {
    graph_add_items(empty_graph(), items)
}

/// Attribution sequences apply one after the other.
pub proof fn lemma_apply_ops_concat(g: GraphV, a: Seq<(u64, Seq<u64>)>, b: Seq<(u64, Seq<u64>)>)
    ensures
        apply_ops(g, a + b) == apply_ops(apply_ops(g, a), b),
    decreases b,
{
    if b.len() == 0 {
        assert(a + b =~= a);
    } else {
        lemma_apply_ops_concat(g, a, b.drop_last());
        assert((a + b).drop_last() =~= a + b.drop_last());
        assert((a + b).last() == b.last());
    }
}

/// Applying one attribution after a sequence.
pub proof fn lemma_apply_ops_push(g: GraphV, s: Seq<(u64, Seq<u64>)>, x: (u64, Seq<u64>))
    ensures
        apply_ops(g, s.push(x)) == insert_refs(apply_ops(g, s), x.0, x.1),
{
    assert(s.push(x).drop_last() =~= s);
    assert(s.push(x).last() == x);
}

// ---------------------------------------------------------------------------
// The executable graph builder.
// ---------------------------------------------------------------------------

/// The edge map as recorded: later records of the same binding extend its
/// edge set.
pub open spec fn decl_map(s: Seq<(u64, Vec<u64>)>) -> Map<u64, Set<u64>>
    decreases s,
{
    if s.len() == 0 {
        Map::empty()
    } else {
        let m = decl_map(s.drop_last());
        let k = s.last().0;
        m.insert(
            k,
            (if m.dom().contains(k) {
                m[k]
            } else {
                Set::empty()
            }).union(ids_set(s.last().1@)),
        )
    }
}

/// Builds the reference graph of a module, one traversal of its items.
#[derive(Debug)]
pub struct ImportVisitor {
    /// Records of declared bindings with the references attributed to them.
    pub decl_refs: Vec<(u64, Vec<u64>)>,
    /// Bindings referenced by non-declaration top-level statements.
    pub global_refs: Vec<u64>,
    /// Bindings referenced by the default export.
    pub export_default_refs: Vec<u64>,
    /// The exported names in syntactic order.
    pub export_decls: Vec<ExportEntry>,
}

impl View for ImportVisitor {
    type V = GraphV;

    open spec fn view(&self) -> GraphV {
        GraphV {
            decl_refs: decl_map(self.decl_refs@),
            globals: ids_set(self.global_refs@),
            defaults: ids_set(self.export_default_refs@),
            exports: entries_view(self.export_decls@),
        }
    }
}

impl Default for ImportVisitor {
    /// An empty graph.
    fn default() -> (r: Self)
        ensures
            r@ == empty_graph(),
    {
        let r = ImportVisitor {
            decl_refs: Vec::new(),
            global_refs: Vec::new(),
            export_default_refs: Vec::new(),
            export_decls: Vec::new(),
        };
        proof {
            assert(r@ =~= empty_graph());
        }
        r
    }
}

impl ImportVisitor {
    /// Records a declared binding together with references it makes.
    fn insert_decl_refs(&mut self, id: u64, refs: Vec<u64>)
        ensures
            final(self)@ == insert_refs(old(self)@, id, refs@),
    {
        let ghost s0 = self.decl_refs@;
        self.decl_refs.push((id, refs));
        proof {
            assert(self.decl_refs@.drop_last() =~= s0);
            assert(self@ =~= insert_refs(old(self)@, id, refs@));
        }
    }

    /// Records a declared binding with no references of its own yet.
    fn register_decl(&mut self, id: u64)
        ensures
            final(self)@ == insert_refs(old(self)@, id, seq![]),
    {
        self.insert_decl_refs(id, Vec::new());
    }

    /// Attributes one reference list to each of several bindings.
    fn insert_decls_refs(&mut self, ids: &Vec<u64>, refs: &Vec<u64>)
        ensures
            final(self)@ == apply_ops(old(self)@, attr_ops(ids@, refs@)),
    {
        let ghost g0 = self@;
        let mut i: usize = 0;
        assert(attr_ops(ids@.take(0int), refs@) =~= Seq::<(u64, Seq<u64>)>::empty());
        while i < ids.len()
            invariant
                i <= ids.len(),
                self@ == apply_ops(g0, attr_ops(ids@.take(i as int), refs@)),
            decreases ids.len() - i,
        {
            self.insert_decl_refs(ids[i], copy_ids(refs));
            i = i + 1;
            proof {
                assert(attr_ops(ids@.take(i as int), refs@) =~= attr_ops(
                    ids@.take(i - 1),
                    refs@,
                ).push((ids@[i - 1], refs@)));
                lemma_apply_ops_push(g0, attr_ops(ids@.take(i - 1), refs@), (ids@[i - 1], refs@));
            }
        }
        proof {
            assert(ids@.take(ids@.len() as int) =~= ids@);
        }
    }

    /// Adds bindings referenced by non-declaration top-level statements.
    fn insert_global_refs(&mut self, refs: &Vec<u64>)
        ensures
            final(self)@ == add_globals(old(self)@, refs@),
    {
        let ghost g0 = self@;
        let mut i: usize = 0;
        assert(g0.globals.union(ids_set(refs@.take(0int))) =~= g0.globals);
        while i < refs.len()
            invariant
                i <= refs.len(),
                self@ == (GraphV { globals: g0.globals.union(ids_set(refs@.take(i as int))), ..g0 }),
            decreases refs.len() - i,
        {
            let ghost s0 = self.global_refs@;
            self.global_refs.push(refs[i]);
            i = i + 1;
            proof {
                assert(self.global_refs@.drop_last() =~= s0);
                assert(refs@.take(i as int).drop_last() =~= refs@.take(i - 1));
                assert(ids_set(self.global_refs@) =~= g0.globals.union(
                    ids_set(refs@.take(i as int)),
                ));
            }
        }
        proof {
            assert(refs@.take(refs@.len() as int) =~= refs@);
            assert(self@ =~= add_globals(g0, refs@));
        }
    }

    /// Adds bindings referenced by the default export.
    fn insert_export_default_refs(&mut self, refs: &Vec<u64>)
        ensures
            final(self)@ == add_defaults(old(self)@, refs@),
    {
        let ghost g0 = self@;
        let mut i: usize = 0;
        assert(g0.defaults.union(ids_set(refs@.take(0int))) =~= g0.defaults);
        while i < refs.len()
            invariant
                i <= refs.len(),
                self@ == (GraphV { defaults: g0.defaults.union(ids_set(refs@.take(i as int))), ..g0 }),
            decreases refs.len() - i,
        {
            let ghost s0 = self.export_default_refs@;
            self.export_default_refs.push(refs[i]);
            i = i + 1;
            proof {
                assert(self.export_default_refs@.drop_last() =~= s0);
                assert(refs@.take(i as int).drop_last() =~= refs@.take(i - 1));
                assert(ids_set(self.export_default_refs@) =~= g0.defaults.union(
                    ids_set(refs@.take(i as int)),
                ));
            }
        }
        proof {
            assert(refs@.take(refs@.len() as int) =~= refs@);
            assert(self@ =~= add_defaults(g0, refs@));
        }
    }

    /// Records one exported name.
    fn insert_export_decl(&mut self, name: Vec<u8>, id: u64, from_decl: bool)
        ensures
            final(self)@ == add_export(old(self)@, name@, id, from_decl),
    {
        let ghost s0 = self.export_decls@;
        self.export_decls.push(ExportEntry { name, id, from_decl });
        proof {
            assert(entries_view(self.export_decls@) =~= entries_view(s0).push(
                entry_view(self.export_decls@.last()),
            ));
            assert(self@ =~= add_export(old(self)@, self.export_decls@.last().name@, id, from_decl));
        }
    }

    /// Records one binding exported under its own name.
    fn insert_export_decl_ident(&mut self, b: &Binding, from_decl: bool)
        ensures
            final(self)@ == add_export(old(self)@, b.name@, b.id, from_decl),
    {
        self.insert_export_decl(copy_bytes(&b.name), b.id, from_decl);
    }

    /// Walks a binding pattern: appends the bindings it declares to `ids`
    /// and attributes the references of its default expressions.
    fn find_idents(&mut self, n: &Pat, ids: &mut Vec<Binding>)
        ensures
            final(self)@ == apply_ops(old(self)@, pat_ops(pat_view(*n))),
            bindings_view(final(ids)@) == bindings_view(old(ids)@) + pat_bindings(pat_view(*n)),
        decreases *n,
    {
        let ghost g0 = self@;
        let ghost ids0 = ids@;
        match n {
            Pat::Ident { binding } => {
                ids.push(copy_binding(binding));
                proof {
                    assert(ids@.drop_last() =~= ids0);
                    assert(apply_ops(g0, pat_ops(pat_view(*n))) == g0);
                    assert(bindings_view(ids@) =~~= bindings_view(ids0) + pat_bindings(
                        pat_view(*n),
                    ));
                }
            }
            Pat::Array { elems } => {
                let ghost ev = pat_opt_seq_view(elems@);
                proof {
                    lemma_pat_opt_seq_view_index(elems@);
                    assert(pat_opt_seq_ops(ev.take(0int)) =~= Seq::<(u64, Seq<u64>)>::empty());
                    assert(bindings_view(ids0) + pat_opt_seq_bindings(ev.take(0int)) =~=
                        bindings_view(ids0));
                }
                let mut i: usize = 0;
                while i < elems.len()
                    invariant
                        i <= elems.len(),
                        self@ == apply_ops(g0, pat_opt_seq_ops(ev.take(i as int))),
                        bindings_view(ids@) == bindings_view(ids0) + pat_opt_seq_bindings(
                            ev.take(i as int),
                        ),
                    decreases elems.len() - i,
                {
                    proof {
                        assert(decreases_to!(*n => *elems));
                        assert(decreases_to!(*elems => elems@));
                        assert(decreases_to!(elems@ => elems@[i as int]));
                    }
                    let ghost g_pre = self@;
                    let ghost ids_pre = ids@;
                    match &elems[i] {
                        Some(q) => {
                            proof {
                                assert(decreases_to!(elems@[i as int] => *q));
                            }
                            self.find_idents(q, ids);
                        }
                        None => (),
                    }
                    i = i + 1;
                    proof {
                        assert(ev.take(i as int).drop_last() =~= ev.take(i - 1));
                        assert(ev.take(i as int).last() == ev[i - 1]);
                        lemma_apply_ops_concat(
                            g0,
                            pat_opt_seq_ops(ev.take(i - 1)),
                            match ev[i - 1] {
                                Some(p) => pat_ops(p),
                                None => seq![],
                            },
                        );
                        assert(pat_opt_seq_ops(ev.take(i as int)) =~= pat_opt_seq_ops(
                            ev.take(i - 1),
                        ) + (match ev[i - 1] {
                            Some(p) => pat_ops(p),
                            None => seq![],
                        }));
                        assert(bindings_view(ids@) =~~= bindings_view(ids0)
                            + pat_opt_seq_bindings(ev.take(i as int)));
                    }
                }
                proof {
                    assert(ev.take(ev.len() as int) =~= ev);
                }
            }
            Pat::Rest { arg } => {
                proof {
                    assert(decreases_to!(*n => **arg));
                }
                self.find_idents(arg, ids);
            }
            Pat::Object { props } => {
                let ghost pv = prop_seq_view(props@);
                proof {
                    lemma_prop_seq_view_index(props@);
                    assert(prop_seq_ops(pv.take(0int)) =~= Seq::<(u64, Seq<u64>)>::empty());
                    assert(bindings_view(ids0) + prop_seq_bindings(pv.take(0int)) =~=
                        bindings_view(ids0));
                }
                let mut i: usize = 0;
                while i < props.len()
                    invariant
                        i <= props.len(),
                        self@ == apply_ops(g0, prop_seq_ops(pv.take(i as int))),
                        bindings_view(ids@) == bindings_view(ids0) + prop_seq_bindings(
                            pv.take(i as int),
                        ),
                    decreases props.len() - i,
                {
                    proof {
                        assert(decreases_to!(*n => *props));
                        assert(decreases_to!(*props => props@));
                        assert(decreases_to!(props@ => props@[i as int]));
                    }
                    let ghost g_pre = self@;
                    let ghost ids_pre = ids@;
                    match &props[i] {
                        ObjectPatProp::KeyValue { tag, pat } => {
                            proof {
                                assert(decreases_to!(props@[i as int] => *pat));
                            }
                            self.find_idents(pat, ids);
                            proof {
                                assert(pv[i as int] == prop_view(props@[i as int]));
                                assert(self@ == apply_ops(g_pre, prop_ops(pv[i as int])));
                                assert(bindings_view(ids@) =~~= bindings_view(ids_pre)
                                    + prop_bindings(pv[i as int]));
                            }
                        }
                        ObjectPatProp::Assign { tag, key, refs } => {
                            let ghost gp = self@;
                            let ghost idsp = ids@;
                            self.insert_decl_refs(key.id, copy_ids(refs));
                            ids.push(copy_binding(key));
                            proof {
                                let op: (u64, Seq<u64>) = (key.id, refs@);
                                assert(apply_ops(gp, Seq::<(u64, Seq<u64>)>::empty()) == gp);
                                assert(seq![op].drop_last() =~= Seq::<(u64, Seq<u64>)>::empty());
                                assert(seq![op].last() == op);
                                assert(apply_ops(gp, seq![op]) == insert_refs(gp, key.id, refs@));
                                assert(pv[i as int] == prop_view(props@[i as int]));
                                assert(prop_ops(pv[i as int]) =~= seq![op]);
                                assert(self@ == apply_ops(gp, prop_ops(pv[i as int])));
                                assert(ids@.drop_last() =~= idsp);
                                assert(bindings_view(ids@) =~~= bindings_view(idsp)
                                    + prop_bindings(pv[i as int]));
                            }
                        }
                        ObjectPatProp::Rest { tag, arg } => {
                            proof {
                                assert(decreases_to!(props@[i as int] => **arg));
                            }
                            self.find_idents(arg, ids);
                            proof {
                                assert(pv[i as int] == prop_view(props@[i as int]));
                                assert(self@ == apply_ops(g_pre, prop_ops(pv[i as int])));
                                assert(bindings_view(ids@) =~~= bindings_view(ids_pre)
                                    + prop_bindings(pv[i as int]));
                            }
                        }
                    }
                    i = i + 1;
                    proof {
                        assert(pv.take(i as int).drop_last() =~= pv.take(i - 1));
                        assert(pv.take(i as int).last() == pv[i - 1]);
                        lemma_apply_ops_concat(
                            g0,
                            prop_seq_ops(pv.take(i - 1)),
                            prop_ops(pv[i - 1]),
                        );
                        assert(prop_seq_ops(pv.take(i as int)) =~= prop_seq_ops(pv.take(i - 1))
                            + prop_ops(pv[i - 1]));
                        assert(self@ == apply_ops(apply_ops(g0, prop_seq_ops(pv.take(i - 1))),
                            prop_ops(pv[i - 1])));
                        assert(prop_seq_bindings(pv.take(i as int)) =~~= prop_seq_bindings(
                            pv.take(i - 1)) + prop_bindings(pv[i - 1]));
                        assert(bindings_view(ids@) =~~= bindings_view(ids0) + prop_seq_bindings(
                            pv.take(i as int),
                        ));
                    }
                }
                proof {
                    assert(pv.take(pv.len() as int) =~= pv);
                }
            }
            Pat::Assign { left, refs } => {
                proof {
                    assert(decreases_to!(*n => **left));
                }
                let start: usize = ids.len();
                self.find_idents(left, ids);
                let mut newids: Vec<u64> = Vec::new();
                let mut j: usize = start;
                proof {
                    lemma_bindings_view_index(ids@);
                    lemma_bindings_view_index(ids0);
                    assert(ids@.len() == ids0.len() + pat_bindings(pat_view(**left)).len());
                    assert(pat_ids(pat_view(**left)).take(0int) =~= Seq::<u64>::empty());
                }
                while j < ids.len()
                    invariant
                        start <= j <= ids.len(),
                        bindings_view(ids@) == bindings_view(ids0) + pat_bindings(
                            pat_view(**left),
                        ),
                        start == ids0.len(),
                        newids@ == pat_ids(pat_view(**left)).take(j - start),
                    decreases ids.len() - j,
                {
                    newids.push(ids[j].id);
                    j = j + 1;
                    proof {
                        lemma_bindings_view_index(ids@);
                        assert(bindings_view(ids@)[j - 1] == pat_bindings(pat_view(**left))[
                            j - 1 - start]);
                        assert(newids@ =~= pat_ids(pat_view(**left)).take(j - start));
                    }
                }
                proof {
                    assert(newids@ =~= pat_ids(pat_view(**left)));
                }
                self.insert_decls_refs(&newids, refs);
                proof {
                    lemma_apply_ops_concat(
                        g0,
                        pat_ops(pat_view(**left)),
                        attr_ops(pat_ids(pat_view(**left)), refs@),
                    );
                }
            }
        }
    }

    /// Records the graph contribution of one declaration.
    fn visit_decl(&mut self, d: &Decl, exported: bool)
        ensures
            final(self)@ == apply_decl(old(self)@, decl_view(*d), exported),
    {
        match d {
            Decl::Class { binding, refs } => {
                self.insert_decl_refs(binding.id, copy_ids(refs));
                if exported {
                    self.insert_export_decl_ident(binding, true);
                }
            }
            Decl::Fn { binding, refs } => {
                self.insert_decl_refs(binding.id, copy_ids(refs));
                if exported {
                    self.insert_export_decl_ident(binding, true);
                }
            }
            Decl::Var { kind, decls } => {
                let ghost g0 = self@;
                let ghost dv = declarators_view(decls@);
                let mut i: usize = 0;
                while i < decls.len()
                    invariant
                        i <= decls.len(),
                        self@ == apply_declarators(g0, dv.take(i as int), exported),
                    decreases decls.len() - i,
                {
                    let d = &decls[i];
                    let ghost g_pre = self@;
                    let mut acc: Vec<Binding> = Vec::new();
                    self.find_idents(&d.pat, &mut acc);
                    proof {
                        lemma_bindings_view_index(acc@);
                    }
                    let mut idsu: Vec<u64> = Vec::new();
                    let mut j: usize = 0;
                    proof {
                        assert(pat_ids(pat_view(d.pat)).take(0int) =~= Seq::<u64>::empty());
                    }
                    while j < acc.len()
                        invariant
                            j <= acc.len(),
                            bindings_view(acc@) == pat_bindings(pat_view(d.pat)),
                            idsu@ == pat_ids(pat_view(d.pat)).take(j as int),
                        decreases acc.len() - j,
                    {
                        idsu.push(acc[j].id);
                        j = j + 1;
                        proof {
                            lemma_bindings_view_index(acc@);
                            assert(bindings_view(acc@)[j - 1] == pat_bindings(pat_view(d.pat))[
                                j - 1]);
                            assert(idsu@ =~= pat_ids(pat_view(d.pat)).take(j as int));
                        }
                    }
                    proof {
                        assert(idsu@ =~= pat_ids(pat_view(d.pat)));
                    }
                    self.insert_decls_refs(&idsu, &d.init_refs);
                    if exported {
                        let ghost g_exp = self@;
                        let mut k: usize = 0;
                        proof {
                            assert(add_export_bindings(g_exp, pat_bindings(pat_view(d.pat)).take(
                                0int)) == g_exp);
                        }
                        while k < acc.len()
                            invariant
                                k <= acc.len(),
                                bindings_view(acc@) == pat_bindings(pat_view(d.pat)),
                                self@ == add_export_bindings(g_exp, pat_bindings(pat_view(
                                    d.pat)).take(k as int)),
                            decreases acc.len() - k,
                        {
                            self.insert_export_decl_ident(&acc[k], true);
                            k = k + 1;
                            proof {
                                lemma_bindings_view_index(acc@);
                                let bs = pat_bindings(pat_view(d.pat));
                                assert(bs.take(k as int).drop_last() =~= bs.take(k - 1));
                                assert(bs.take(k as int).last() == bs[k - 1]);
                                assert(bs[k - 1] == binding_view(acc@[k - 1]));
                            }
                        }
                        proof {
                            let bs = pat_bindings(pat_view(d.pat));
                            assert(bs.take(bs.len() as int) =~= bs);
                        }
                    }
                    i = i + 1;
                    proof {
                        assert(dv.take(i as int).drop_last() =~= dv.take(i - 1));
                        assert(dv.take(i as int).last() == dv[i - 1]);
                        assert(dv[i - 1] == declarator_view(decls@[i - 1]));
                        assert(self@ == apply_declarator(g_pre, dv[i - 1], exported));
                    }
                }
                proof {
                    assert(dv.take(dv.len() as int) =~= dv);
                }
            }
        }
    }

    /// Records the graph contribution of one top-level item.
    pub fn visit_module_item(&mut self, item: &Item)
        ensures
            final(self)@ == graph_add(old(self)@, item@),
    {
        match &item.kind {
            ItemKind::Import { specifiers } => {
                let ghost g0 = self@;
                let ghost sv = import_specifiers_view(specifiers@);
                let mut i: usize = 0;
                while i < specifiers.len()
                    invariant
                        i <= specifiers.len(),
                        self@ == apply_import_specs(g0, sv.take(i as int)),
                    decreases specifiers.len() - i,
                {
                    self.register_decl(specifiers[i].local.id);
                    i = i + 1;
                    proof {
                        assert(sv.take(i as int).drop_last() =~= sv.take(i - 1));
                        assert(sv.take(i as int).last() == sv[i - 1]);
                        assert(sv[i - 1] == import_specifier_view(specifiers@[i - 1]));
                    }
                }
                proof {
                    assert(sv.take(sv.len() as int) =~= sv);
                }
            }
            ItemKind::Decl { decl } => {
                self.visit_decl(decl, false);
            }
            ItemKind::ExportDecl { decl } => {
                self.visit_decl(decl, true);
            }
            ItemKind::ExportNamed { has_src, specifiers } => {
                if !*has_src {
                    let ghost g0 = self@;
                    let ghost sv = export_specifiers_view(specifiers@);
                    let mut i: usize = 0;
                    while i < specifiers.len()
                        invariant
                            i <= specifiers.len(),
                            self@ == apply_export_specs(g0, sv.take(i as int)),
                        decreases specifiers.len() - i,
                    {
                        match &specifiers[i] {
                            ExportSpecifier::Named { tag, orig, exported } => {
                                match exported {
                                    Some(n) => {
                                        self.insert_export_decl(copy_bytes(n), orig.id, false);
                                    }
                                    None => {
                                        self.insert_export_decl_ident(orig, false);
                                    }
                                }
                            }
                            ExportSpecifier::Namespace { tag, name } => (),
                        }
                        i = i + 1;
                        proof {
                            assert(sv.take(i as int).drop_last() =~= sv.take(i - 1));
                            assert(sv.take(i as int).last() == sv[i - 1]);
                            assert(sv[i - 1] == export_specifier_view(specifiers@[i - 1]));
                        }
                    }
                    proof {
                        assert(sv.take(sv.len() as int) =~= sv);
                    }
                }
            }
            ItemKind::ExportDefaultDecl { kind, binding, refs } => {
                match binding {
                    Some(b) => {
                        self.register_decl(b.id);
                    }
                    None => (),
                }
                self.insert_export_default_refs(refs);
            }
            ItemKind::ExportDefaultExpr { refs } => {
                self.insert_export_default_refs(refs);
            }
            ItemKind::ExportAll => (),
            ItemKind::Stmt { refs } => {
                self.insert_global_refs(refs);
            }
        }
    }

    /// Builds the reference graph of a whole module.
    pub fn visit_module(&mut self, m: &Module)
        ensures
            final(self)@ == graph_add_items(old(self)@, m@),
    {
        let ghost g0 = self@;
        let mut i: usize = 0;
        while i < m.items.len()
            invariant
                i <= m.items.len(),
                self@ == graph_add_items(g0, m@.take(i as int)),
            decreases m.items.len() - i,
        {
            self.visit_module_item(&m.items[i]);
            i = i + 1;
            proof {
                assert(m@.take(i as int).drop_last() =~= m@.take(i - 1));
                assert(m@.take(i as int).last() == m@[i - 1]);
                assert(m@[i - 1] == item_view(m.items@[i - 1]));
            }
        }
        proof {
            assert(m@.take(m@.len() as int) =~= m@);
        }
    }

    /// The declared bindings: the keys of the edge map, each once.
    pub fn keys(&self) -> (r: Vec<u64>)
        ensures
            r@.no_duplicates(),
            ids_set(r@) == self@.decl_refs.dom(),
    {
        let mut r: Vec<u64> = Vec::new();
        let mut i: usize = 0;
        assert(ids_set(r@) =~= decl_map(self.decl_refs@.take(0int)).dom());
        while i < self.decl_refs.len()
            invariant
                i <= self.decl_refs@.len(),
                r@.no_duplicates(),
                ids_set(r@) == decl_map(self.decl_refs@.take(i as int)).dom(),
            decreases self.decl_refs@.len() - i,
        {
            let k = self.decl_refs[i].0;
            proof {
                lemma_ids_set_contains(r@, k);
            }
            if !contains_id(&r, k) {
                let ghost r0 = r@;
                r.push(k);
                proof {
                    assert(r@.drop_last() =~= r0);
                }
            }
            i = i + 1;
            proof {
                assert(self.decl_refs@.take(i as int).drop_last() =~= self.decl_refs@.take(i - 1));
                assert(self.decl_refs@.take(i as int).last() == self.decl_refs@[i - 1]);
                assert(ids_set(r@) =~= decl_map(self.decl_refs@.take(i as int)).dom());
            }
        }
        proof {
            assert(self.decl_refs@.take(self.decl_refs@.len() as int) =~= self.decl_refs@);
        }
        r
    }

    /// The references attributed to one declared binding; empty for a
    /// binding that is not declared.
    pub fn refs_of(&self, id: u64) -> (r: Vec<u64>)
        ensures
            ids_set(r@) == (if self@.decl_refs.dom().contains(id) {
                self@.decl_refs[id]
            } else {
                Set::<u64>::empty()
            }),
    {
        let mut r: Vec<u64> = Vec::new();
        let ghost whole = self.decl_refs@;
        let mut i: usize = 0;
        assert(ids_set(r@) =~= Set::<u64>::empty());
        assert(!decl_map(whole.take(0int)).dom().contains(id)) by {
            assert(decl_map(whole.take(0int)) =~= Map::<u64, Set<u64>>::empty());
        }
        while i < self.decl_refs.len()
            invariant
                i <= whole.len(),
                whole == self.decl_refs@,
                ids_set(r@) == (if decl_map(whole.take(i as int)).dom().contains(id) {
                    decl_map(whole.take(i as int))[id]
                } else {
                    Set::<u64>::empty()
                }),
            decreases whole.len() - i,
        {
            let ghost rpre = ids_set(r@);
            if self.decl_refs[i].0 == id {
                let v = &self.decl_refs[i].1;
                let mut j: usize = 0;
                while j < v.len()
                    invariant
                        j <= v@.len(),
                        ids_set(r@) == rpre.union(ids_set(v@.take(j as int))),
                    decreases v@.len() - j,
                {
                    let ghost r0 = r@;
                    r.push(v[j]);
                    j = j + 1;
                    proof {
                        assert(r@.drop_last() =~= r0);
                        assert(v@.take(j as int).drop_last() =~= v@.take(j - 1));
                        assert(v@.take(j as int).last() == v@[j - 1]);
                        assert(ids_set(r@) =~= rpre.union(ids_set(v@.take(j as int))));
                    }
                }
                proof {
                    assert(v@.take(v@.len() as int) =~= v@);
                }
            }
            i = i + 1;
            proof {
                assert(whole.take(i as int).drop_last() =~= whole.take(i - 1));
                assert(whole.take(i as int).last() == whole[i - 1]);
                if whole[i - 1].0 == id {
                    assert(ids_set(r@) =~= (if decl_map(whole.take(i as int)).dom().contains(id) {
                        decl_map(whole.take(i as int))[id]
                    } else {
                        Set::<u64>::empty()
                    }));
                } else {
                    assert(decl_map(whole.take(i as int)) =~= decl_map(whole.take(i - 1)).insert(
                        whole[i - 1].0,
                        (if decl_map(whole.take(i - 1)).dom().contains(whole[i - 1].0) {
                            decl_map(whole.take(i - 1))[whole[i - 1].0]
                        } else {
                            Set::<u64>::empty()
                        }).union(ids_set(whole[i - 1].1@)),
                    ));
                }
            }
        }
        proof {
            assert(whole.take(whole.len() as int) =~= whole);
        }
        r
    }
}

} // verus!
