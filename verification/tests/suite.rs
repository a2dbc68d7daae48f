// The behaviour suite: each case parses a source text, runs the removal on
// the module model, parses the expected text, and compares the two models
// up to binding renumbering and host tags.

use std::collections::{HashMap, HashSet};

use remove_exports::model::{
    Binding, Decl, DefaultKind, ImportKind, ImportSpecifier, Item, ItemKind, Module,
    ObjectPatProp, Pat, VarDeclarator, VarKind,
};
use remove_exports::model::ExportSpecifier as MExportSpecifier;
use remove_exports::remove_exports;

use swc_common::sync::Lrc;
use swc_common::{FileName, Globals, Mark, SourceMap, GLOBALS};
use swc_ecmascript::ast as js;
use swc_ecmascript::parser::{lexer::Lexer, EsSyntax, Parser, StringInput, Syntax};
use swc_ecmascript::transforms::resolver;
use swc_ecmascript::visit::{Visit, VisitMutWith, VisitWith};

struct Cx {
    ids: HashMap<js::Id, u64>,
    next: u64,
    tag: u64,
}

impl Cx {
    fn new() -> Cx {
        Cx { ids: HashMap::new(), next: 1, tag: 1 }
    }

    fn id_of(&mut self, i: &js::Ident) -> u64 {
        let key = i.to_id();
        match self.ids.get(&key) {
            Some(v) => *v,
            None => {
                let v = self.next;
                self.next += 1;
                self.ids.insert(key, v);
                v
            }
        }
    }

    fn fresh_id(&mut self) -> u64 {
        let v = self.next;
        self.next += 1;
        v
    }

    fn tag(&mut self) -> u64 {
        let v = self.tag;
        self.tag += 1;
        v
    }

    fn binding_of(&mut self, i: &js::Ident) -> Binding {
        Binding { id: self.id_of(i), name: i.sym.as_str().as_bytes().to_vec() }
    }
}

struct Refs<'a> {
    cx: &'a mut Cx,
    out: Vec<u64>,
    seen: HashSet<u64>,
}

impl<'a> Visit for Refs<'a> {
    fn visit_ident(&mut self, n: &js::Ident) {
        let v = self.cx.id_of(n);
        if self.seen.insert(v) {
            self.out.push(v);
        }
    }
}

fn collect<N>(cx: &mut Cx, node: &N) -> Vec<u64>
where
    N: for<'a> VisitWith<Refs<'a>>,
{
    let mut r = Refs { cx, out: Vec::new(), seen: HashSet::new() };
    node.visit_with(&mut r);
    r.out
}

fn export_name_bytes(n: &js::ModuleExportName) -> Vec<u8> {
    match n {
        js::ModuleExportName::Ident(i) => i.sym.as_str().as_bytes().to_vec(),
        js::ModuleExportName::Str(s) => s.value.as_bytes().to_vec(),
    }
}

fn convert_pat(cx: &mut Cx, p: &js::Pat) -> Pat {
    match p {
        js::Pat::Ident(b) => Pat::Ident { binding: cx.binding_of(&b.id) },
        js::Pat::Array(a) => Pat::Array {
            elems: a.elems.iter().map(|e| e.as_ref().map(|q| convert_pat(cx, q))).collect(),
        },
        js::Pat::Rest(r) => Pat::Rest { arg: Box::new(convert_pat(cx, &r.arg)) },
        js::Pat::Object(o) => Pat::Object {
            props: o
                .props
                .iter()
                .map(|pr| match pr {
                    js::ObjectPatProp::KeyValue(kv) => {
                        let tag = cx.tag();
                        ObjectPatProp::KeyValue { tag, pat: convert_pat(cx, &kv.value) }
                    }
                    js::ObjectPatProp::Assign(a) => {
                        let tag = cx.tag();
                        let refs = match &a.value {
                            Some(v) => collect(cx, &**v),
                            None => Vec::new(),
                        };
                        ObjectPatProp::Assign { tag, key: cx.binding_of(&a.key.id), refs }
                    }
                    js::ObjectPatProp::Rest(r) => {
                        let tag = cx.tag();
                        ObjectPatProp::Rest { tag, arg: Box::new(convert_pat(cx, &r.arg)) }
                    }
                })
                .collect(),
        },
        js::Pat::Assign(a) => Pat::Assign {
            left: Box::new(convert_pat(cx, &a.left)),
            refs: collect(cx, &*a.right),
        },
        js::Pat::Invalid(_) => panic!("invalid code"),
        js::Pat::Expr(_) => panic!("invalid code"),
    }
}

fn convert_decl(cx: &mut Cx, d: &js::Decl) -> Decl {
    match d {
        js::Decl::Class(c) => {
            let refs = collect(cx, &*c.class);
            Decl::Class { binding: cx.binding_of(&c.ident), refs }
        }
        js::Decl::Fn(f) => {
            let refs = collect(cx, &*f.function);
            Decl::Fn { binding: cx.binding_of(&f.ident), refs }
        }
        js::Decl::Var(v) => Decl::Var {
            kind: match v.kind {
                js::VarDeclKind::Var => VarKind::Var,
                js::VarDeclKind::Let => VarKind::Let,
                js::VarDeclKind::Const => VarKind::Const,
            },
            decls: v
                .decls
                .iter()
                .map(|dd| {
                    let tag = cx.tag();
                    let init_refs = match &dd.init {
                        Some(e) => collect(cx, &**e),
                        None => Vec::new(),
                    };
                    VarDeclarator { tag, pat: convert_pat(cx, &dd.name), init_refs }
                })
                .collect(),
        },
        _ => panic!("invalid code"),
    }
}

fn convert(cx: &mut Cx, m: &js::Module) -> Module {
    let mut items: Vec<Item> = Vec::new();
    for item in &m.body {
        let tag = cx.tag();
        let kind = match item {
            js::ModuleItem::ModuleDecl(decl) => match decl {
                js::ModuleDecl::Import(d) => ItemKind::Import {
                    specifiers: d
                        .specifiers
                        .iter()
                        .map(|s| {
                            let tag = cx.tag();
                            match s {
                                js::ImportSpecifier::Named(n) => ImportSpecifier {
                                    tag,
                                    kind: ImportKind::Named,
                                    local: cx.binding_of(&n.local),
                                },
                                js::ImportSpecifier::Default(n) => ImportSpecifier {
                                    tag,
                                    kind: ImportKind::Default,
                                    local: cx.binding_of(&n.local),
                                },
                                js::ImportSpecifier::Namespace(n) => ImportSpecifier {
                                    tag,
                                    kind: ImportKind::Namespace,
                                    local: cx.binding_of(&n.local),
                                },
                            }
                        })
                        .collect(),
                },
                js::ModuleDecl::ExportDecl(ed) => ItemKind::ExportDecl {
                    decl: convert_decl(cx, &ed.decl),
                },
                js::ModuleDecl::ExportNamed(ne) => {
                    let has_src = ne.src.is_some();
                    ItemKind::ExportNamed {
                        has_src,
                        specifiers: ne
                            .specifiers
                            .iter()
                            .map(|s| {
                                let tag = cx.tag();
                                match s {
                                    js::ExportSpecifier::Named(n) => {
                                        let orig = match &n.orig {
                                            js::ModuleExportName::Ident(i) => cx.binding_of(i),
                                            js::ModuleExportName::Str(st) => {
                                                if !has_src {
                                                    panic!("invalid code");
                                                }
                                                Binding {
                                                    id: cx.fresh_id(),
                                                    name: st.value.as_bytes().to_vec(),
                                                }
                                            }
                                        };
                                        MExportSpecifier::Named {
                                            tag,
                                            orig,
                                            exported: n
                                                .exported
                                                .as_ref()
                                                .map(export_name_bytes),
                                        }
                                    }
                                    js::ExportSpecifier::Namespace(n) => {
                                        MExportSpecifier::Namespace {
                                            tag,
                                            name: export_name_bytes(&n.name),
                                        }
                                    }
                                    js::ExportSpecifier::Default(_) => panic!("invalid code"),
                                }
                            })
                            .collect(),
                    }
                }
                js::ModuleDecl::ExportDefaultDecl(dd) => match &dd.decl {
                    js::DefaultDecl::Class(ce) => ItemKind::ExportDefaultDecl {
                        kind: DefaultKind::Class,
                        binding: ce.ident.as_ref().map(|i| cx.binding_of(i)),
                        refs: collect(cx, &*ce.class),
                    },
                    js::DefaultDecl::Fn(fe) => ItemKind::ExportDefaultDecl {
                        kind: DefaultKind::Fn,
                        binding: fe.ident.as_ref().map(|i| cx.binding_of(i)),
                        refs: collect(cx, &*fe.function),
                    },
                    js::DefaultDecl::TsInterfaceDecl(_) => panic!("invalid code"),
                },
                js::ModuleDecl::ExportDefaultExpr(de) => ItemKind::ExportDefaultExpr {
                    refs: collect(cx, &*de.expr),
                },
                js::ModuleDecl::ExportAll(_) => ItemKind::ExportAll,
                _ => panic!("invalid code"),
            },
            js::ModuleItem::Stmt(stmt) => match stmt {
                js::Stmt::Decl(d) => ItemKind::Decl { decl: convert_decl(cx, d) },
                other => ItemKind::Stmt { refs: collect(cx, other) },
            },
        };
        items.push(Item { tag, kind });
    }
    Module { items }
}

fn parse_convert(src: &str) -> Module {
    GLOBALS.set(&Globals::new(), || {
        let cm: Lrc<SourceMap> = Lrc::new(SourceMap::default());
        let fm = cm.new_source_file(
            Lrc::new(FileName::Custom("input.js".to_string())),
            src.to_string(),
        );
        let lexer = Lexer::new(
            Syntax::Es(EsSyntax::default()),
            js::EsVersion::Es2022,
            StringInput::from(&*fm),
            None,
        );
        let mut parser = Parser::new_from(lexer);
        let mut module = parser.parse_module().unwrap();
        let mut res = resolver(Mark::new(), Mark::new(), false);
        module.visit_mut_with(&mut res);
        let mut cx = Cx::new();
        convert(&mut cx, &module)
    })
}

// Canonical text of a model module: binding identities renumbered in order
// of first occurrence, host tags ignored, trailing array holes dropped (a
// trailing hole is invisible in source, as a trailing comma is).
struct Canon {
    map: HashMap<u64, u64>,
    next: u64,
    out: String,
}

impl Canon {
    fn id(&mut self, x: u64) -> u64 {
        match self.map.get(&x) {
            Some(v) => *v,
            None => {
                let v = self.next;
                self.next += 1;
                self.map.insert(x, v);
                v
            }
        }
    }

    fn put_id(&mut self, x: u64) {
        let v = self.id(x);
        self.out.push_str(&v.to_string());
    }

    fn put_refs(&mut self, refs: &[u64]) {
        self.out.push('[');
        for r in refs {
            self.put_id(*r);
            self.out.push(',');
        }
        self.out.push(']');
    }

    fn put_name(&mut self, n: &[u8]) {
        self.out.push('"');
        self.out.push_str(&String::from_utf8_lossy(n));
        self.out.push('"');
    }

    fn put_binding(&mut self, b: &Binding) {
        self.put_id(b.id);
        self.out.push(':');
        self.put_name(&b.name);
    }

    fn put_pat(&mut self, p: &Pat) {
        match p {
            Pat::Ident { binding } => {
                self.out.push_str("id(");
                self.put_binding(binding);
                self.out.push(')');
            }
            Pat::Array { elems } => {
                let mut last = elems.len();
                while last > 0 && elems[last - 1].is_none() {
                    last -= 1;
                }
                self.out.push_str("arr(");
                for e in &elems[..last] {
                    match e {
                        Some(q) => self.put_pat(q),
                        None => self.out.push('_'),
                    }
                    self.out.push(',');
                }
                self.out.push(')');
            }
            Pat::Rest { arg } => {
                self.out.push_str("rest(");
                self.put_pat(arg);
                self.out.push(')');
            }
            Pat::Object { props } => {
                self.out.push_str("obj(");
                for pr in props {
                    match pr {
                        ObjectPatProp::KeyValue { tag: _, pat } => {
                            self.out.push_str("kv(");
                            self.put_pat(pat);
                            self.out.push(')');
                        }
                        ObjectPatProp::Assign { tag: _, key, refs } => {
                            self.out.push_str("asg(");
                            self.put_binding(key);
                            self.put_refs(refs);
                            self.out.push(')');
                        }
                        ObjectPatProp::Rest { tag: _, arg } => {
                            self.out.push_str("rst(");
                            self.put_pat(arg);
                            self.out.push(')');
                        }
                    }
                    self.out.push(',');
                }
                self.out.push(')');
            }
            Pat::Assign { left, refs } => {
                self.out.push_str("def(");
                self.put_pat(left);
                self.put_refs(refs);
                self.out.push(')');
            }
        }
    }

    fn put_decl(&mut self, d: &Decl) {
        match d {
            Decl::Class { binding, refs } => {
                self.out.push_str("class(");
                self.put_binding(binding);
                self.put_refs(refs);
                self.out.push(')');
            }
            Decl::Fn { binding, refs } => {
                self.out.push_str("fn(");
                self.put_binding(binding);
                self.put_refs(refs);
                self.out.push(')');
            }
            Decl::Var { kind, decls } => {
                self.out.push_str(match kind {
                    VarKind::Var => "var(",
                    VarKind::Let => "let(",
                    VarKind::Const => "const(",
                });
                for dd in decls {
                    self.put_pat(&dd.pat);
                    self.out.push('=');
                    self.put_refs(&dd.init_refs);
                    self.out.push(',');
                }
                self.out.push(')');
            }
        }
    }

    fn put_module(&mut self, m: &Module) {
        for item in &m.items {
            match &item.kind {
                ItemKind::Import { specifiers } => {
                    self.out.push_str("import(");
                    for s in specifiers {
                        self.out.push_str(match s.kind {
                            ImportKind::Named => "n",
                            ImportKind::Default => "d",
                            ImportKind::Namespace => "s",
                        });
                        self.put_binding(&s.local);
                        self.out.push(',');
                    }
                    self.out.push(')');
                }
                ItemKind::Decl { decl } => {
                    self.out.push_str("decl:");
                    self.put_decl(decl);
                }
                ItemKind::ExportDecl { decl } => {
                    self.out.push_str("export-decl:");
                    self.put_decl(decl);
                }
                ItemKind::ExportNamed { has_src, specifiers } => {
                    self.out.push_str(if *has_src {
                        "export-from("
                    } else {
                        "export-named("
                    });
                    for s in specifiers {
                        match s {
                            MExportSpecifier::Named { tag: _, orig, exported } => {
                                self.out.push_str("spec(");
                                self.put_binding(orig);
                                if let Some(e) = exported {
                                    self.out.push_str(" as ");
                                    self.put_name(e);
                                }
                                self.out.push(')');
                            }
                            MExportSpecifier::Namespace { tag: _, name } => {
                                self.out.push_str("ns(");
                                self.put_name(name);
                                self.out.push(')');
                            }
                        }
                        self.out.push(',');
                    }
                    self.out.push(')');
                }
                ItemKind::ExportDefaultDecl { kind, binding, refs } => {
                    self.out.push_str(match kind {
                        DefaultKind::Class => "export-default-class(",
                        DefaultKind::Fn => "export-default-fn(",
                    });
                    if let Some(b) = binding {
                        self.put_binding(b);
                    }
                    self.put_refs(refs);
                    self.out.push(')');
                }
                ItemKind::ExportDefaultExpr { refs } => {
                    self.out.push_str("export-default-expr(");
                    self.put_refs(refs);
                    self.out.push(')');
                }
                ItemKind::ExportAll => {
                    self.out.push_str("export-all");
                }
                ItemKind::Stmt { refs } => {
                    self.out.push_str("stmt(");
                    self.put_refs(refs);
                    self.out.push(')');
                }
            }
            self.out.push('\n');
        }
    }
}

fn canon(m: &Module) -> String {
    let mut c = Canon { map: HashMap::new(), next: 1, out: String::new() };
    c.put_module(m);
    c.out
}

fn removals(names: &[&str]) -> Vec<Vec<u8>> {
    names.iter().map(|n| n.as_bytes().to_vec()).collect()
}

fn run(src: &str, rms: &[&str], expected: &str) {
    let input = parse_convert(src);
    let out = remove_exports(input, removals(rms));
    let want = parse_convert(expected);
    assert_eq!(canon(&out), canon(&want));
}

fn run_empty(src: &str, rms: &[&str]) {
    run(src, rms, "");
}

#[test]
fn remove_export_default_expr() {
    run_empty("export default 2333;", &["default"]);
    run_empty("export default foobar;", &["default"]);
    run_empty("export default (class {});", &["default"]);
    run_empty("export default (class foo {});", &["default"]);
    run_empty("export default (function () {});", &["default"]);
    run_empty("export default (function foo() {});", &["default"]);
}

#[test]
fn remove_export_default_decl() {
    run_empty("export default class {}", &["default"]);
    run_empty("export default class foo {}", &["default"]);
    run_empty("export default function () {}", &["default"]);
    run_empty("export default function* () {}", &["default"]);
    run_empty("export default function foo() {}", &["default"]);
    run_empty("export default function* foo() {}", &["default"]);
    run_empty("export default async function () {}", &["default"]);
    run_empty("export default async function* () {}", &["default"]);
    run_empty("export default async function foo() {}", &["default"]);
    run_empty("export default async function* foo() {}", &["default"]);
}

#[test]
fn remove_export_decl() {
    run_empty("export var foo = null", &["foo"]);
    run_empty("export let foo = null", &["foo"]);
    run_empty("export const foo = null", &["foo"]);

    run("export const foo = 1, bar = 2", &["foo"], "export const bar = 2;");

    run(
        "export var [foo, , bar = 233, ...baz] = []",
        &["foo"],
        "export var [, , bar = 233, ...baz] = [];",
    );
    run(
        "export var [foo, , bar = 233, ...baz] = []",
        &["bar"],
        "export var [foo, , , ...baz] = [];",
    );
    run(
        "export var [foo, , bar = 233, ...baz] = []",
        &["baz"],
        "export var [foo, , bar = 233, ] = [];",
    );
    run("export var [foo, , bar = 233, ...baz] = []", &["foo", "bar", "baz"], "");

    run(
        "export const { foo, bar: baz, bai = 2333, ...rest } = {}",
        &["foo"],
        "export const { bar: baz, bai = 2333, ...rest } = {};",
    );
    run(
        "export const { foo, bar: baz, bai = 2333, ...rest } = {}",
        &["bar"],
        "export const { foo, bar: baz, bai = 2333, ...rest } = {};",
    );
    run(
        "export const { foo, bar: baz, bai = 2333, ...rest } = {}",
        &["baz"],
        "export const { foo, bai = 2333, ...rest } = {};",
    );
    run(
        "export const { foo, bar: baz, bai = 2333, ...rest } = {}",
        &["bai"],
        "export const { foo, bar: baz, ...rest } = {};",
    );
    run(
        "export const { foo, bar: baz, bai = 2333, ...rest } = {}",
        &["rest"],
        "export const { foo, bar: baz, bai = 2333 } = {};",
    );
    run(
        "export const { foo, bar: baz, bai = 2333, ...rest } = {}",
        &["foo", "baz", "bai", "rest"],
        "",
    );

    run("export function foo() {}", &["foo"], "");
    run("export function bar() {}", &["foo"], "export function bar() {}");
    run("export function* foo() {}", &["foo"], "");
    run("export function* bar() {}", &["foo"], "export function* bar() {}");

    run("export class foo {}", &["foo"], "");
    run("export class bar {}", &["foo"], "export class bar {\n}");

    run("export * as foo from \"source\";", &["foo"], "");
}

#[test]
fn remove_export_names() {
    run("export { foo }", &["foo"], "");
    run("export { foo as bar }", &["foo"], "export { foo as bar };");
    run("export { bar as foo }", &["foo"], "");

    run("export { foo, bar }", &["foo"], "export { bar };");
    run("export { foo, bar }", &["bar"], "export { foo };");
    run("export { foo, bar }", &["baz"], "export { foo, bar };");
    run("export { foo, bar }", &["foo", "bar"], "");

    run("export { foo as \"\u{1F600}\" } ", &["\u{1F600}"], "");
}

#[test]
fn remove_infected_imports() {
    run_empty(
        r#"
    const foo = 114;
    const bar = 514;
    const baz = [];
    const a = baz || foo;
    const b = baz || bar;
    export { a, b };
    "#,
        &["a", "b"],
    );

    run_empty(
        r#"
    import { bar } from "source";
    export function foo() { bar; }
    "#,
        &["foo"],
    );

    run(
        r#"
    import { bar } from "source";
    bar;
    export function foo() { bar; }
    "#,
        &["foo"],
        r#"
    import { bar } from "source";
    bar;
    "#,
    );

    run(
        r#"
    import { bar } from "source";
    export function foo(bar) { bar; }
    "#,
        &["foo"],
        r#"import { bar } from "source";"#,
    );

    run(
        r#"
    import { bar } from "source";
    export function foo() { var bar; bar = 2; }
    "#,
        &["foo"],
        r#"import { bar } from "source";"#,
    );

    run(
        r#"
    import {} from "source";
    export function foo() {}
    "#,
        &["foo"],
        r#"import "source";"#,
    );

    run(
        r#"
    import "source";
    export function foo() {}
    "#,
        &["foo"],
        r#"import "source";"#,
    );
}

#[test]
fn remove_infected_decls() {
    run_empty(
        r#"
    const bar = 233;
    export function foo() { return bar; }
    "#,
        &["foo"],
    );

    run_empty(
        r#"
    function bar() { return foo(); }
    export function foo() { return bar(); }
    "#,
        &["foo"],
    );

    run(
        r#"
    const bar = 233;
    export function foo(bar) {}
    "#,
        &["foo"],
        "const bar = 233;",
    );

    run(
        r#"
    const bar = 233;
    export function foo(bar = bar) {}
    "#,
        &["foo"],
        "const bar = 233;",
    );

    run_empty(
        r#"
    import { baka } from "source";
    const baz = (foo, bar) => baka(foo, bar);
    const bar = (foo) => baz(bar, foo);
    export function foo() { bar(foo) }
    "#,
        &["foo"],
    );

    run(
        r#"
    import { baka } from "source";
    const baz = (foo, bar) => baka(foo, bar);
    export const bar = (foo) => baz(bar, foo);
    export function foo() { bar(foo) }
    "#,
        &["foo"],
        r#"
    import { baka } from "source";
    const baz = (foo, bar)=>baka(foo, bar);
    export const bar = (foo)=>baz(bar, foo);
    "#,
    );
}

#[test]
fn preserve_unrelated_code() {
    run(
        r#"
    import {} from "source";
    export { foo };
    "#,
        &["foo"],
        r#"
    import "source";
    "#,
    );

    run_empty(
        r#"
    import { foo } from "source";
    export { foo };
    "#,
        &["foo"],
    );

    run(
        r#"
    import { foo } from "source";
    foo();
    export { foo };
    "#,
        &["foo"],
        r#"
    import { foo } from "source";
    foo();
    "#,
    );
}

#[test]
fn recursive_references() {
    run_empty(
        r#"
    function bar() { foo() }
    export function foo() { bar() }
    "#,
        &["foo"],
    );
    run(
        r#"
    function bar() { foo() }
    function foo() { bar() }
    export { foo, bar }
    "#,
        &["foo"],
        r#"
    function bar() {
      foo();
    }
    function foo() {
      bar();
    }
    export { bar };
    "#,
    );
    run(
        r#"
    export function bar() { foo(); }
    export function foo() { bar(); }
    "#,
        &["foo"],
        r#"
    export function bar() {
      foo();
    }
    "#,
    );

    run(
        r#"
    export default function bar() { foo(); }
    function foo() { bar(); }
    "#,
        &["default"],
        r#"
    "#,
    );

    run(
        r#"
    export default function bar() { foo(); }
    export function foo() { bar(); }
    "#,
        &["default"],
        r#"
    export function foo() {
      bar();
    }
    "#,
    );
}

#[test]
fn should_work_for_remix() {
    run(
        r#"
    import { useState } from "react";
    import { useLoader } from "remix";
    import { h } from "react/jsx-runtime";
    import "./style.css";
    import { db } from "~/database.ts";
    import { add } from "@/utils";

    const USER_ID = 114514;

    export const loader = async () => {
      add(114, 514);
      return await db.getUser(USER_ID);
    }

    export const action = async () => {
      return await db.deleteUser(USER_ID);
    }

    function Page(props) {
      add(114, 514);
      return h("div", null, [props.data]);
    }

    export default function () {
      const loader = useLoader();
      return h(Page, { data: loader }, null);
    }
    "#,
        &["loader", "action"],
        r#"
    import { useState } from "react";
    import { useLoader } from "remix";
    import { h } from "react/jsx-runtime";
    import "./style.css";
    import { add } from "@/utils";
    function Page(props) {
      add(114, 514);
      return h("div", null, [
        props.data
      ]);
    }
    export default function() {
      const loader = useLoader();
      return h(Page, {
        data: loader
      }, null);
    }
    "#,
    );
}

#[test]
fn should_work_for_qwik() {
    run(
        r#"
    import { loader$, action$, component$, h } from "@builder-io/qwik";
    import { database } from "sqlite";
    const USER_ID = 114514;

    export const useUser = loader$(async () => {
      return await database.query(USER_ID);
    });
    export const useNextUser = action$(async () => {
      return await database.query(USER_ID + 1);
    });

    export default component$(() => {
      const user = useUser();
      const next = useNextUser();
      return h("div", null, [user, next]);
    });
    "#,
        &["useUser", "useNextUser"],
        r#"
    import { component$, h } from "@builder-io/qwik";
    export default component$(()=>{
      const user = useUser();
      const next = useNextUser();
      return h("div", null, [
        user,
        next
      ]);
    });
    "#,
    );
}

// The same behaviour stated a second time, with a few expected texts worded
// differently: both phrasings must hold.

#[test]
fn tests_remove_export_default_expr() {
    run_empty("export default 2333;", &["default"]);
    run_empty("export default foobar;", &["default"]);
    run_empty("export default (class {});", &["default"]);
    run_empty("export default (class foo {});", &["default"]);
    run_empty("export default (function () {});", &["default"]);
    run_empty("export default (function foo() {});", &["default"]);
}

#[test]
fn tests_remove_export_default_decl() {
    run_empty("export default class {}", &["default"]);
    run_empty("export default class foo {}", &["default"]);
    run_empty("export default function () {}", &["default"]);
    run_empty("export default function* () {}", &["default"]);
    run_empty("export default function foo() {}", &["default"]);
    run_empty("export default function* foo() {}", &["default"]);
    run_empty("export default async function () {}", &["default"]);
    run_empty("export default async function* () {}", &["default"]);
    run_empty("export default async function foo() {}", &["default"]);
    run_empty("export default async function* foo() {}", &["default"]);
}

#[test]
fn tests_remove_export_decl() {
    run_empty("export var foo = null", &["foo"]);
    run_empty("export let foo = null", &["foo"]);
    run_empty("export const foo = null", &["foo"]);
    run("export const foo = 1, bar = 2", &["foo"], "export const bar = 2;");
    run(
        "export var [foo, , bar = 233, ...baz] = []",
        &["foo"],
        "export var [, , bar = 233, ...baz] = [];",
    );
    run(
        "export var [foo, , bar = 233, ...baz] = []",
        &["bar"],
        "export var [foo, , , ...baz] = [];",
    );
    run(
        "export var [foo, , bar = 233, ...baz] = []",
        &["baz"],
        "export var [foo, , bar = 233, ] = [];",
    );
    run("export var [foo, , bar = 233, ...baz] = []", &["foo", "bar", "baz"], "");
    run(
        "export const { foo, bar: baz, bai = 2333, ...rest } = {}",
        &["foo"],
        "export const { bar: baz, bai = 2333, ...rest } = {};",
    );
    run(
        "export const { foo, bar: baz, bai = 2333, ...rest } = {}",
        &["bar"],
        "export const { foo, bar: baz, bai = 2333, ...rest } = {};",
    );
    run(
        "export const { foo, bar: baz, bai = 2333, ...rest } = {}",
        &["baz"],
        "export const { foo, bai = 2333, ...rest } = {};",
    );
    run(
        "export const { foo, bar: baz, bai = 2333, ...rest } = {}",
        &["bai"],
        "export const { foo, bar: baz, ...rest } = {};",
    );
    run(
        "export const { foo, bar: baz, bai = 2333, ...rest } = {}",
        &["rest"],
        "export const { foo, bar: baz, bai = 2333 } = {};",
    );
    run(
        "export const { foo, bar: baz, bai = 2333, ...rest } = {}",
        &["foo", "baz", "bai", "rest"],
        "",
    );
    run("export function foo() {}", &["foo"], "");
    run("export function bar() {}", &["foo"], "export function bar() {}");
    run("export function* foo() {}", &["foo"], "");
    run("export function* bar() {}", &["foo"], "export function* bar() {}");
    run("export class foo {}", &["foo"], "");
    run("export class bar {}", &["foo"], "export class bar {\n}");
    run("export * as foo from \"source\";", &["foo"], "");
}

#[test]
fn tests_remove_export_names() {
    run("export { foo }", &["foo"], "");
    run("export { foo as bar }", &["foo"], "export { foo as bar };");
    run("export { bar as foo }", &["foo"], "");
    run("export { foo, bar }", &["foo"], "export { bar };");
    run("export { foo, bar }", &["bar"], "export { foo };");
    run("export { foo, bar }", &["baz"], "export { foo, bar };");
    run("export { foo, bar }", &["foo", "bar"], "");
    run("export { foo as \"\u{1F600}\" } ", &["\u{1F600}"], "");
}

#[test]
fn tests_remove_infected_imports() {
    run_empty(
        r#"
    const foo = 114;
    const bar = 514;
    const baz = [];
    const a = baz || foo;
    const b = baz || bar;
    export { a, b };
    "#,
        &["a", "b"],
    );
    run_empty(
        r#"
    import { bar } from "source";
    export function foo() { bar; }
    "#,
        &["foo"],
    );
    run(
        r#"
    import { bar } from "source";
    bar;
    export function foo() { bar; }
    "#,
        &["foo"],
        "import { bar } from \"source\";\nbar;",
    );
    run(
        r#"
    import { bar } from "source";
    export function foo(bar) { bar; }
    "#,
        &["foo"],
        "import { bar } from \"source\";",
    );
    run(
        r#"
    import {} from "source";
    export function foo() {}
    "#,
        &["foo"],
        "import \"source\";",
    );
    run(
        r#"
    import "source";
    export function foo() {}
    "#,
        &["foo"],
        "import \"source\";",
    );
}

#[test]
fn tests_remove_infected_decls() {
    run_empty(
        r#"
    const bar = 233;
    export function foo() { return bar; }
    "#,
        &["foo"],
    );
    run_empty(
        r#"
    function bar() { return foo(); }
    export function foo() { return bar(); }
    "#,
        &["foo"],
    );
    run(
        r#"
    const bar = 233;
    export function foo(bar) {}
    "#,
        &["foo"],
        "const bar = 233;",
    );
    run(
        r#"
    const bar = 233;
    export function foo(bar = bar) {}
    "#,
        &["foo"],
        "const bar = 233;",
    );
}

#[test]
fn find_count() {
    assert_eq!(1 + 1, 2);
}

// Further behaviour: self reference, full removal of a cycle, and removing
// again changes nothing.

#[test]
fn self_reference_removed() {
    run_empty("function foo(){ foo(); } export { foo };", &["foo"]);
}

#[test]
fn mutual_recursion_full_removal() {
    run_empty(
        r#"
    function bar() { foo() }
    function foo() { bar() }
    export { foo, bar }
    "#,
        &["foo", "bar"],
    );
}

#[test]
fn removing_twice_changes_nothing() {
    let sources = [
        r#"
        import { bar } from "source";
        bar;
        export function foo() { bar; }
        "#,
        r#"
        function bar() { foo() }
        function foo() { bar() }
        export { foo, bar }
        "#,
        r#"
        export var [foo, , bar = 233, ...baz] = [];
        export default function () { foo(); }
        "#,
    ];
    for src in sources {
        let rms = removals(&["foo", "default"]);
        let once = remove_exports(parse_convert(src), rms.clone());
        let twice = remove_exports(remove_exports(parse_convert(src), rms.clone()), rms);
        assert_eq!(canon(&once), canon(&twice));
    }
}
