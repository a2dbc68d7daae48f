// Tests that drive the library on hand-built module models, plus the
// counter and the source normalizer on their own.

use remove_exports::counter::RefCounter;
use remove_exports::format::format_code;
use remove_exports::model::{
    Binding, Decl, Item, ItemKind, Module, Pat, VarDeclarator, VarKind,
};
use remove_exports::remove_exports;

fn b(id: u64, name: &str) -> Binding {
    Binding { id, name: name.as_bytes().to_vec() }
}

fn removals(names: &[&str]) -> Vec<Vec<u8>> {
    names.iter().map(|n| n.as_bytes().to_vec()).collect()
}

// const bar = 233; export function foo() { return bar; }
fn dependent_module() -> Module {
    Module {
        items: vec![
            Item {
                tag: 1,
                kind: ItemKind::Decl {
                    decl: Decl::Var {
                        kind: VarKind::Const,
                        decls: vec![VarDeclarator {
                            tag: 2,
                            pat: Pat::Ident { binding: b(1, "bar") },
                            init_refs: vec![],
                        }],
                    },
                },
            },
            Item {
                tag: 3,
                kind: ItemKind::ExportDecl {
                    decl: Decl::Fn { binding: b(2, "foo"), refs: vec![1] },
                },
            },
        ],
    }
}

#[test]
fn cascade_deletes_dependency() {
    let out = remove_exports(dependent_module(), removals(&["foo"]));
    assert_eq!(out.items.len(), 0);
}

#[test]
fn unrelated_removal_keeps_everything() {
    let out = remove_exports(dependent_module(), removals(&["baz"]));
    assert_eq!(out.items.len(), 2);
}

#[test]
fn global_reference_keeps_dependency() {
    // const bar = 233; bar; export function foo() { return bar; }
    let mut m = dependent_module();
    m.items.push(Item { tag: 4, kind: ItemKind::Stmt { refs: vec![1] } });
    let out = remove_exports(m, removals(&["foo"]));
    // the function goes; the constant and the statement stay
    assert_eq!(out.items.len(), 2);
    assert!(matches!(out.items[0].kind, ItemKind::Decl { .. }));
    assert!(matches!(out.items[1].kind, ItemKind::Stmt { .. }));
}

#[test]
fn counter_marks_on_zero() {
    let mut rc = RefCounter::from_keys(vec![7, 8]);
    rc.count(7);
    rc.count(7);
    rc.count(9); // outside the universe: ignored
    assert!(!rc.discount(7)); // 2 -> 1
    assert!(rc.discount(7)); // 1 -> 0: marked
    assert!(!rc.discount(7)); // already zero: no-op
    assert!(!rc.discount(8)); // never counted: no-op
    assert!(!rc.discount(9)); // outside the universe
    assert_eq!(rc.done, vec![7]);
}

#[test]
fn counter_mark_is_idempotent() {
    let mut rc = RefCounter::from_keys(vec![1]);
    rc.mark(5);
    rc.mark(5);
    assert_eq!(rc.done, vec![5]);
}

#[test]
fn format_code_trims_lines() {
    let text = "  export const bar = 2;  \n   foo();\t\n".as_bytes().to_vec();
    let formatted = format_code(&text);
    assert_eq!(formatted, "export const bar = 2;\nfoo();".as_bytes().to_vec());
}

#[test]
fn format_code_keeps_inner_blank_lines_trimmed() {
    let text = "a\n   \nb".as_bytes().to_vec();
    let formatted = format_code(&text);
    assert_eq!(formatted, "a\n\nb".as_bytes().to_vec());
}

#[test]
fn format_code_of_blank_text_is_empty() {
    let text = " \n \n ".as_bytes().to_vec();
    let formatted = format_code(&text);
    assert_eq!(formatted, Vec::<u8>::new());
}

#[test]
fn empty_module_stays_empty() {
    let out = remove_exports(Module { items: vec![] }, removals(&["foo", "default"]));
    assert_eq!(out.items.len(), 0);
}

#[test]
fn namespace_reexport_removed_by_name() {
    // export * as foo from "source";
    let m = Module {
        items: vec![Item {
            tag: 1,
            kind: ItemKind::ExportNamed {
                has_src: true,
                specifiers: vec![remove_exports::model::ExportSpecifier::Namespace {
                    tag: 2,
                    name: "foo".as_bytes().to_vec(),
                }],
            },
        }],
    };
    let out = remove_exports(m, removals(&["foo"]));
    assert_eq!(out.items.len(), 0);
}
