use vstd::prelude::*;

verus! {

broadcast use vstd::seq::axiom_seq_index_decreases, vstd::seq::axiom_seq_subrange_decreases, vstd::std_specs::vec::axiom_vec_index_decreases, vstd::std_specs::vec::axiom_vec_decreases_to_view;

// ---------------------------------------------------------------------------
// The module model.
//
// A parsed module is represented by its top-level items only, with every
// identifier occurrence already resolved to a hygienic binding identity (a
// plain `u64`): two bindings share an identity exactly when they are the same
// binding after scope resolution.  Expression and statement bodies are
// abstracted to the list of binding identities they reference; that is all
// the transform reads of them.  Each node that can be deleted individually
// carries a host-assigned `tag`, which the transform preserves, so that a
// host can map the pruned model back onto its own richer syntax tree.
// ---------------------------------------------------------------------------

/// One declared binding: a hygienic identity together with its surface name.
#[derive(Debug)]
pub struct Binding {
    pub id: u64,
    pub name: Vec<u8>,
}

/// How an import specifier binds its local name.
#[derive(Debug, Clone, Copy, PartialEq, Eq)]
pub enum ImportKind {
    Named,
    Default,
    Namespace,
}

/// One specifier of an import declaration.
#[derive(Debug)]
pub struct ImportSpecifier {
    pub tag: u64,
    pub kind: ImportKind,
    pub local: Binding,
}

/// A binding pattern of a variable declarator.
#[derive(Debug)]
pub enum Pat {
    /// A plain name.
    Ident { binding: Binding },
    /// An array pattern; `None` is a hole.
    Array { elems: Vec<Option<Pat>> },
    /// A rest element.
    Rest { arg: Box<Pat> },
    /// An object pattern.
    Object { props: Vec<ObjectPatProp> },
    /// A pattern with a default value; `refs` are the bindings the default
    /// expression references.
    Assign { left: Box<Pat>, refs: Vec<u64> },
}

/// One property of an object pattern.
#[derive(Debug)]
pub enum ObjectPatProp {
    /// `{ key: pattern }`.
    KeyValue { tag: u64, pat: Pat },
    /// `{ key }` or `{ key = default }`; `refs` are the bindings the default
    /// expression references, empty when there is none.
    Assign { tag: u64, key: Binding, refs: Vec<u64> },
    /// `{ ...rest }`.
    Rest { tag: u64, arg: Box<Pat> },
}

/// The keyword of a variable declaration.
#[derive(Debug, Clone, Copy, PartialEq, Eq)]
pub enum VarKind {
    Var,
    Let,
    Const,
}

/// One declarator of a variable declaration; `init_refs` are the bindings
/// referenced by its initializer, empty when there is none.
#[derive(Debug)]
pub struct VarDeclarator {
    pub tag: u64,
    pub pat: Pat,
    pub init_refs: Vec<u64>,
}

/// A declaration; `refs` are the bindings referenced inside the body.
#[derive(Debug)]
pub enum Decl {
    Class { binding: Binding, refs: Vec<u64> },
    Fn { binding: Binding, refs: Vec<u64> },
    Var { kind: VarKind, decls: Vec<VarDeclarator> },
}

/// One specifier of a named-export declaration.
#[derive(Debug)]
pub enum ExportSpecifier {
    /// `export { orig }` or `export { orig as exported }`.
    Named { tag: u64, orig: Binding, exported: Option<Vec<u8>> },
    /// `export * as name from "source"`.
    Namespace { tag: u64, name: Vec<u8> },
}

/// Whether a default export declaration is a class or a function.
#[derive(Debug, Clone, Copy, PartialEq, Eq)]
pub enum DefaultKind {
    Class,
    Fn,
}

/// One top-level item of a module.
#[derive(Debug)]
pub enum ItemKind {
    /// An import declaration; one with no specifiers is a side-effect import.
    Import { specifiers: Vec<ImportSpecifier> },
    /// A plain top-level declaration.
    Decl { decl: Decl },
    /// An exported declaration.
    ExportDecl { decl: Decl },
    /// A named-export declaration, a re-export when `has_src` is set.
    ExportNamed { has_src: bool, specifiers: Vec<ExportSpecifier> },
    /// `export default class ... {}` or `export default function ... () {}`;
    /// `refs` are the bindings referenced inside the body.
    ExportDefaultDecl { kind: DefaultKind, binding: Option<Binding>, refs: Vec<u64> },
    /// `export default <expr>;`.
    ExportDefaultExpr { refs: Vec<u64> },
    /// `export * from "source";`.
    ExportAll,
    /// Any other top-level statement; `refs` are the bindings it references.
    Stmt { refs: Vec<u64> },
}

/// One tagged top-level item.
#[derive(Debug)]
pub struct Item {
    pub tag: u64,
    pub kind: ItemKind,
}

/// A parsed module: its top-level items.
#[derive(Debug)]
pub struct Module {
    pub items: Vec<Item>,
}

// ---------------------------------------------------------------------------
// The mathematical image of the model: the same shapes over Seq and plain
// values.  Contracts and proofs speak of these.
// ---------------------------------------------------------------------------

#[verifier::ext_equal]
pub struct BindingV {
    pub id: u64,
    pub name: Seq<u8>,
}

#[verifier::ext_equal]
pub struct ImportSpecifierV {
    pub tag: u64,
    pub kind: ImportKind,
    pub local: BindingV,
}

#[verifier::ext_equal]
pub enum PatV {
    Ident { binding: BindingV },
    Array { elems: Seq<Option<PatV>> },
    Rest { arg: Box<PatV> },
    Object { props: Seq<ObjectPatPropV> },
    Assign { left: Box<PatV>, refs: Seq<u64> },
}

#[verifier::ext_equal]
pub enum ObjectPatPropV {
    KeyValue { tag: u64, pat: PatV },
    Assign { tag: u64, key: BindingV, refs: Seq<u64> },
    Rest { tag: u64, arg: Box<PatV> },
}

#[verifier::ext_equal]
pub struct VarDeclaratorV {
    pub tag: u64,
    pub pat: PatV,
    pub init_refs: Seq<u64>,
}

#[verifier::ext_equal]
pub enum DeclV {
    Class { binding: BindingV, refs: Seq<u64> },
    Fn { binding: BindingV, refs: Seq<u64> },
    Var { kind: VarKind, decls: Seq<VarDeclaratorV> },
}

#[verifier::ext_equal]
pub enum ExportSpecifierV {
    Named { tag: u64, orig: BindingV, exported: Option<Seq<u8>> },
    Namespace { tag: u64, name: Seq<u8> },
}

#[verifier::ext_equal]
pub enum ItemKindV {
    Import { specifiers: Seq<ImportSpecifierV> },
    Decl { decl: DeclV },
    ExportDecl { decl: DeclV },
    ExportNamed { has_src: bool, specifiers: Seq<ExportSpecifierV> },
    ExportDefaultDecl { kind: DefaultKind, binding: Option<BindingV>, refs: Seq<u64> },
    ExportDefaultExpr { refs: Seq<u64> },
    ExportAll,
    Stmt { refs: Seq<u64> },
}

#[verifier::ext_equal]
pub struct ItemV {
    pub tag: u64,
    pub kind: ItemKindV,
}

// ---------------------------------------------------------------------------
// Views from the executable model onto its mathematical image.
// ---------------------------------------------------------------------------

pub open spec fn binding_view(b: Binding) -> BindingV {
    BindingV { id: b.id, name: b.name@ }
}

pub open spec fn opt_binding_view(b: Option<Binding>) -> Option<BindingV> {
    match b {
        Some(b) => Some(binding_view(b)),
        None => None,
    }
}

pub open spec fn pat_view(p: Pat) -> PatV
    decreases p,
{
    match p {
        Pat::Ident { binding } => PatV::Ident { binding: binding_view(binding) },
        Pat::Array { elems } => PatV::Array { elems: pat_opt_seq_view(elems@) },
        Pat::Rest { arg } => PatV::Rest { arg: Box::new(pat_view(*arg)) },
        Pat::Object { props } => PatV::Object { props: prop_seq_view(props@) },
        Pat::Assign { left, refs } => PatV::Assign {
            left: Box::new(pat_view(*left)),
            refs: refs@,
        },
    }
}

pub open spec fn pat_opt_seq_view(s: Seq<Option<Pat>>) -> Seq<Option<PatV>>
    decreases s,
{
    if s.len() == 0 {
        seq![]
    } else {
        pat_opt_seq_view(s.drop_last()).push(match s.last() {
            Some(p) => Some(pat_view(p)),
            None => None,
        })
    }
}

pub open spec fn prop_seq_view(s: Seq<ObjectPatProp>) -> Seq<ObjectPatPropV>
    decreases s,
{
    if s.len() == 0 {
        seq![]
    } else {
        prop_seq_view(s.drop_last()).push(prop_view(s.last()))
    }
}

pub open spec fn prop_view(p: ObjectPatProp) -> ObjectPatPropV
    decreases p,
{
    match p {
        ObjectPatProp::KeyValue { tag, pat } => ObjectPatPropV::KeyValue {
            tag,
            pat: pat_view(pat),
        },
        ObjectPatProp::Assign { tag, key, refs } => ObjectPatPropV::Assign {
            tag,
            key: binding_view(key),
            refs: refs@,
        },
        ObjectPatProp::Rest { tag, arg } => ObjectPatPropV::Rest {
            tag,
            arg: Box::new(pat_view(*arg)),
        },
    }
}

pub open spec fn import_specifier_view(s: ImportSpecifier) -> ImportSpecifierV {
    ImportSpecifierV { tag: s.tag, kind: s.kind, local: binding_view(s.local) }
}

pub open spec fn import_specifiers_view(s: Seq<ImportSpecifier>) -> Seq<ImportSpecifierV> {
    s.map_values(|x: ImportSpecifier| import_specifier_view(x))
}

pub open spec fn declarator_view(d: VarDeclarator) -> VarDeclaratorV {
    VarDeclaratorV { tag: d.tag, pat: pat_view(d.pat), init_refs: d.init_refs@ }
}

pub open spec fn declarators_view(s: Seq<VarDeclarator>) -> Seq<VarDeclaratorV> {
    s.map_values(|x: VarDeclarator| declarator_view(x))
}

pub open spec fn decl_view(d: Decl) -> DeclV {
    match d {
        Decl::Class { binding, refs } => DeclV::Class { binding: binding_view(binding), refs: refs@ },
        Decl::Fn { binding, refs } => DeclV::Fn { binding: binding_view(binding), refs: refs@ },
        Decl::Var { kind, decls } => DeclV::Var { kind, decls: declarators_view(decls@) },
    }
}

pub open spec fn export_specifier_view(s: ExportSpecifier) -> ExportSpecifierV {
    match s {
        ExportSpecifier::Named { tag, orig, exported } => ExportSpecifierV::Named {
            tag,
            orig: binding_view(orig),
            exported: match exported {
                Some(n) => Some(n@),
                None => None,
            },
        },
        ExportSpecifier::Namespace { tag, name } => ExportSpecifierV::Namespace { tag, name: name@ },
    }
}

pub open spec fn export_specifiers_view(s: Seq<ExportSpecifier>) -> Seq<ExportSpecifierV> {
    s.map_values(|x: ExportSpecifier| export_specifier_view(x))
}

pub open spec fn item_view(item: Item) -> ItemV {
    ItemV { tag: item.tag, kind: item_kind_view(item.kind) }
}

pub open spec fn item_kind_view(kind: ItemKind) -> ItemKindV {
    match kind {
        ItemKind::Import { specifiers } => ItemKindV::Import {
            specifiers: import_specifiers_view(specifiers@),
        },
        ItemKind::Decl { decl } => ItemKindV::Decl { decl: decl_view(decl) },
        ItemKind::ExportDecl { decl } => ItemKindV::ExportDecl { decl: decl_view(decl) },
        ItemKind::ExportNamed { has_src, specifiers } => ItemKindV::ExportNamed {
            has_src,
            specifiers: export_specifiers_view(specifiers@),
        },
        ItemKind::ExportDefaultDecl { kind, binding, refs } => ItemKindV::ExportDefaultDecl {
            kind,
            binding: opt_binding_view(binding),
            refs: refs@,
        },
        ItemKind::ExportDefaultExpr { refs } => ItemKindV::ExportDefaultExpr { refs: refs@ },
        ItemKind::ExportAll => ItemKindV::ExportAll,
        ItemKind::Stmt { refs } => ItemKindV::Stmt { refs: refs@ },
    }
}

pub open spec fn items_view(items: Seq<Item>) -> Seq<ItemV> {
    items.map_values(|x: Item| item_view(x))
}

impl View for Pat {
    type V = PatV;

    open spec fn view(&self) -> PatV {
        pat_view(*self)
    }
}

impl View for Item {
    type V = ItemV;

    open spec fn view(&self) -> ItemV {
        item_view(*self)
    }
}

impl View for Module {
    type V = Seq<ItemV>;

    open spec fn view(&self) -> Seq<ItemV> {
        items_view(self.items@)
    }
}

// ---------------------------------------------------------------------------
// Well-formedness.  A validly parsed module never holds a namespace
// specifier in a named export without a source; the transform is only
// specified on such modules.
// ---------------------------------------------------------------------------

pub open spec fn specifier_is_named(s: ExportSpecifierV) -> bool {
    s is Named
}

pub open spec fn item_wf(item: ItemV) -> bool {
    match item.kind {
        ItemKindV::ExportNamed { has_src, specifiers } => has_src || (forall|i: int|
            0 <= i < specifiers.len() ==> specifier_is_named(#[trigger] specifiers[i])),
        _ => true,
    }
}

pub open spec fn items_wf(items: Seq<ItemV>) -> bool {
    forall|i: int| 0 <= i < items.len() ==> item_wf(#[trigger] items[i])
}

impl Module {
    /// A validly parsed module: no namespace specifier stands in a local
    /// named export.
    pub open spec fn wf(&self) -> bool {
        items_wf(self@)
    }
}

// ---------------------------------------------------------------------------
// The bindings declared by a pattern, and the reference attributions made
// inside it: a pattern default (`[x = e]` or `{ x = e }`) attributes the
// references of `e` to the bindings to its left.
// ---------------------------------------------------------------------------

/// The bindings a pattern declares, in syntactic order.
pub open spec fn pat_bindings(p: PatV) -> Seq<BindingV>
    decreases p,
{
    match p {
        PatV::Ident { binding } => seq![binding],
        PatV::Array { elems } => pat_opt_seq_bindings(elems),
        PatV::Rest { arg } => pat_bindings(*arg),
        PatV::Object { props } => prop_seq_bindings(props),
        PatV::Assign { left, refs } => pat_bindings(*left),
    }
}

pub open spec fn pat_opt_seq_bindings(s: Seq<Option<PatV>>) -> Seq<BindingV>
    decreases s,
{
    if s.len() == 0 {
        seq![]
    } else {
        pat_opt_seq_bindings(s.drop_last()) + (match s.last() {
            Some(p) => pat_bindings(p),
            None => seq![],
        })
    }
}

pub open spec fn prop_seq_bindings(s: Seq<ObjectPatPropV>) -> Seq<BindingV>
    decreases s,
{
    if s.len() == 0 {
        seq![]
    } else {
        prop_seq_bindings(s.drop_last()) + prop_bindings(s.last())
    }
}

pub open spec fn prop_bindings(p: ObjectPatPropV) -> Seq<BindingV>
    decreases p,
{
    match p {
        ObjectPatPropV::KeyValue { tag, pat } => pat_bindings(pat),
        ObjectPatPropV::Assign { tag, key, refs } => seq![key],
        ObjectPatPropV::Rest { tag, arg } => pat_bindings(*arg),
    }
}

/// The identities a pattern declares, in syntactic order.
pub open spec fn pat_ids(p: PatV) -> Seq<u64> {
    pat_bindings(p).map_values(|b: BindingV| b.id)
}

/// One reference attribution: a binding identity together with the
/// identities referenced by an expression attributed to it.
pub open spec fn attr_ops(ids: Seq<u64>, refs: Seq<u64>) -> Seq<(u64, Seq<u64>)> {
    ids.map_values(|id: u64| (id, refs))
}

/// The reference attributions made inside a pattern, in syntactic order.
pub open spec fn pat_ops(p: PatV) -> Seq<(u64, Seq<u64>)>
    decreases p,
{
    match p {
        PatV::Ident { binding } => seq![],
        PatV::Array { elems } => pat_opt_seq_ops(elems),
        PatV::Rest { arg } => pat_ops(*arg),
        PatV::Object { props } => prop_seq_ops(props),
        PatV::Assign { left, refs } => pat_ops(*left) + attr_ops(pat_ids(*left), refs),
    }
}

pub open spec fn pat_opt_seq_ops(s: Seq<Option<PatV>>) -> Seq<(u64, Seq<u64>)>
    decreases s,
{
    if s.len() == 0 {
        seq![]
    } else {
        pat_opt_seq_ops(s.drop_last()) + (match s.last() {
            Some(p) => pat_ops(p),
            None => seq![],
        })
    }
}

pub open spec fn prop_seq_ops(s: Seq<ObjectPatPropV>) -> Seq<(u64, Seq<u64>)>
    decreases s,
{
    if s.len() == 0 {
        seq![]
    } else {
        prop_seq_ops(s.drop_last()) + prop_ops(s.last())
    }
}

pub open spec fn prop_ops(p: ObjectPatPropV) -> Seq<(u64, Seq<u64>)>
    decreases p,
{
    match p {
        ObjectPatPropV::KeyValue { tag, pat } => pat_ops(pat),
        ObjectPatPropV::Assign { tag, key, refs } => seq![(key.id, refs)],
        ObjectPatPropV::Rest { tag, arg } => pat_ops(*arg),
    }
}

/// The set of identities in a sequence of references.
pub open spec fn ids_set(s: Seq<u64>) -> Set<u64>
    decreases s,
{
    if s.len() == 0 {
        Set::empty()
    } else {
        ids_set(s.drop_last()).insert(s.last())
    }
}

/// `ids_set` is membership in the sequence.
pub proof fn lemma_ids_set_contains(s: Seq<u64>, x: u64)
    ensures
        ids_set(s).contains(x) <==> s.contains(x),
    decreases s,
{
    if s.len() > 0 {
        lemma_ids_set_contains(s.drop_last(), x);
        if s.contains(x) {
            let i = choose|i: int| 0 <= i < s.len() && s[i] == x;
            if i < s.len() - 1 {
                assert(s.drop_last()[i] == x);
            }
        }
        if s.drop_last().contains(x) {
            let i = choose|i: int| 0 <= i < s.drop_last().len() && s.drop_last()[i] == x;
            assert(s[i] == x);
        }
    }
}

// ---------------------------------------------------------------------------
// Small executable helpers over the model.
// ---------------------------------------------------------------------------

/// The views of a sequence of bindings.
pub open spec fn bindings_view(s: Seq<Binding>) -> Seq<BindingV>
    decreases s,
{
    if s.len() == 0 {
        seq![]
    } else {
        bindings_view(s.drop_last()).push(binding_view(s.last()))
    }
}

/// Indexing the view of a sequence of bindings.
pub proof fn lemma_bindings_view_index(s: Seq<Binding>)
    ensures
        bindings_view(s).len() == s.len(),
        forall|i: int| 0 <= i < s.len() ==> bindings_view(s)[i] == binding_view(s[i]),
    decreases s,
{
    if s.len() > 0 {
        lemma_bindings_view_index(s.drop_last());
    }
}

/// Copies a list of identities.
pub fn copy_ids(v: &Vec<u64>) -> (r: Vec<u64>)
    ensures
        r@ == v@,
{
    let mut r: Vec<u64> = Vec::new();
    let mut i: usize = 0;
    while i < v.len()
        invariant
            i <= v.len(),
            r@ == v@.take(i as int),
        decreases v.len() - i,
    {
        r.push(v[i]);
        i = i + 1;
        assert(r@ =~= v@.take(i as int));
    }
    proof {
        assert(v@.take(v@.len() as int) =~= v@);
    }
    r
}

/// Copies a name.
pub fn copy_bytes(v: &Vec<u8>) -> (r: Vec<u8>)
    ensures
        r@ == v@,
{
    let mut r: Vec<u8> = Vec::new();
    let mut i: usize = 0;
    while i < v.len()
        invariant
            i <= v.len(),
            r@ == v@.take(i as int),
        decreases v.len() - i,
    {
        r.push(v[i]);
        i = i + 1;
        assert(r@ =~= v@.take(i as int));
    }
    proof {
        assert(v@.take(v@.len() as int) =~= v@);
    }
    r
}

/// Copies a binding.
pub fn copy_binding(b: &Binding) -> (r: Binding)
    ensures
        binding_view(r) == binding_view(*b),
{
    Binding { id: b.id, name: copy_bytes(&b.name) }
}

/// Whether an identity stands in a list.
pub fn contains_id(v: &Vec<u64>, x: u64) -> (r: bool)
    ensures
        r == v@.contains(x),
{
    let mut i: usize = 0;
    while i < v.len()
        invariant
            i <= v.len(),
            forall|j: int| 0 <= j < i ==> v@[j] != x,
        decreases v.len() - i,
    {
        if v[i] == x {
            return true;
        }
        i = i + 1;
    }
    false
}

/// Whether two names are the same.
pub fn bytes_eq(a: &Vec<u8>, b: &Vec<u8>) -> (r: bool)
    ensures
        r == (a@ == b@),
{
    if a.len() != b.len() {
        assert(a@ != b@) by {
            assert(a@.len() != b@.len());
        }
        return false;
    }
    let mut i: usize = 0;
    while i < a.len()
        invariant
            i <= a.len(),
            a@.len() == b@.len(),
            forall|j: int| 0 <= j < i ==> a@[j] == b@[j],
        decreases a.len() - i,
    {
        if a[i] != b[i] {
            return false;
        }
        i = i + 1;
    }
    proof {
        assert(a@ =~= b@);
    }
    true
}

// ---------------------------------------------------------------------------
// Index characterizations of the recursive view maps.
// ---------------------------------------------------------------------------

/// Indexing the view of a sequence of optional patterns.
pub proof fn lemma_pat_opt_seq_view_index(s: Seq<Option<Pat>>)
    ensures
        pat_opt_seq_view(s).len() == s.len(),
        forall|i: int| 0 <= i < s.len() ==> pat_opt_seq_view(s)[i] == (match s[i] {
            Some(p) => Some(pat_view(p)),
            None => None::<PatV>,
        }),
    decreases s,
{
    if s.len() > 0 {
        lemma_pat_opt_seq_view_index(s.drop_last());
    }
}

/// Indexing the view of a sequence of object-pattern properties.
pub proof fn lemma_prop_seq_view_index(s: Seq<ObjectPatProp>)
    ensures
        prop_seq_view(s).len() == s.len(),
        forall|i: int| 0 <= i < s.len() ==> prop_seq_view(s)[i] == prop_view(s[i]),
    decreases s,
{
    if s.len() > 0 {
        lemma_prop_seq_view_index(s.drop_last());
    }
}

/// A set of identities is finite.
pub proof fn lemma_ids_set_finite(s: Seq<u64>)
    ensures
        ids_set(s).finite(),
    decreases s,
{
    if s.len() > 0 {
        lemma_ids_set_finite(s.drop_last());
    }
}

/// Without duplicates, the set of a sequence has the sequence's length.
pub proof fn lemma_ids_set_len(s: Seq<u64>)
    requires
        s.no_duplicates(),
    ensures
        ids_set(s).finite(),
        ids_set(s).len() == s.len(),
    decreases s,
{
    lemma_ids_set_finite(s);
    if s.len() > 0 {
        lemma_ids_set_len(s.drop_last());
        lemma_ids_set_contains(s.drop_last(), s.last());
    }
}

/// The set of a concatenation is the union of the sets.
pub proof fn lemma_ids_set_concat(a: Seq<u64>, b: Seq<u64>)
    ensures
        ids_set(a + b) == ids_set(a).union(ids_set(b)),
    decreases b,
{
    if b.len() == 0 {
        assert(a + b =~= a);
        assert(ids_set(a).union(ids_set(b)) =~= ids_set(a));
    } else {
        lemma_ids_set_concat(a, b.drop_last());
        assert((a + b).drop_last() =~= a + b.drop_last());
        assert((a + b).last() == b.last());
        assert(ids_set(a).union(ids_set(b)) =~= ids_set(a).union(ids_set(b.drop_last())).insert(
            b.last(),
        ));
    }
}

/// The views of a sequence of names.
pub open spec fn names_view(s: Seq<Vec<u8>>) -> Seq<Seq<u8>>
    decreases s,
{
    if s.len() == 0 {
        seq![]
    } else {
        names_view(s.drop_last()).push(s.last()@)
    }
}

/// Indexing the view of a sequence of names.
pub proof fn lemma_names_view_index(s: Seq<Vec<u8>>)
    ensures
        names_view(s).len() == s.len(),
        forall|i: int| 0 <= i < s.len() ==> names_view(s)[i] == s[i]@,
    decreases s,
{
    if s.len() > 0 {
        lemma_names_view_index(s.drop_last());
    }
}

/// The name under which the default export is requested.
pub open spec fn default_name() -> Seq<u8> {
    seq![100u8, 101u8, 102u8, 97u8, 117u8, 108u8, 116u8]
}

/// Whether a name stands in a sequence of names.
pub open spec fn name_in(names: Seq<Seq<u8>>, n: Seq<u8>) -> bool {
    exists|i: int| 0 <= i < names.len() && names[i] == n
}

/// Whether a name stands in a list of names.
pub fn contains_name(names: &Vec<Vec<u8>>, n: &Vec<u8>) -> (r: bool)
    ensures
        r == name_in(names_view(names@), n@),
{
    proof {
        lemma_names_view_index(names@);
    }
    let mut i: usize = 0;
    while i < names.len()
        invariant
            i <= names@.len(),
            forall|j: int| 0 <= j < i ==> names_view(names@)[j] != n@,
        decreases names@.len() - i,
    {
        if bytes_eq(&names[i], n) {
            assert(names_view(names@)[i as int] == n@);
            return true;
        }
        i = i + 1;
    }
    false
}

/// The requested name of the default export, as a value.
pub fn default_name_bytes() -> (r: Vec<u8>)
    ensures
        r@ == default_name(),
{
    let mut r: Vec<u8> = Vec::new();
    r.push(100u8);
    r.push(101u8);
    r.push(102u8);
    r.push(97u8);
    r.push(117u8);
    r.push(108u8);
    r.push(116u8);
    proof {
        assert(r@ =~= default_name());
    }
    r
}

} // verus!
