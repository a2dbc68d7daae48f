#![verifier::loop_isolation(false)]

pub mod counter;
pub mod format;
pub mod graph;
pub mod idempotence;
pub mod model;
pub mod prune;
pub mod solver;

use vstd::prelude::*;

use crate::graph::{graph_of, ImportVisitor};
use crate::model::{items_view, names_view, ItemV, Module};
use crate::prune::prune_items;
use crate::solver::{removed_set, RemoveVisitor};

verus! {

/// The whole transform over the mathematical module image: the bindings to
/// delete are solved from the module's reference graph, then the items are
/// pruned under that removal set and the requested names.
pub open spec fn remove_exports_spec(items: Seq<ItemV>, names: Seq<Seq<u8>>) -> Seq<ItemV> {
    prune_items(items, removed_set(graph_of(items), names), names)
}

/// Removes the requested exports from a module, and with them every
/// top-level declaration that only served them.  The name `default` stands
/// for the default export.
pub fn remove_exports(m: Module, removes: Vec<Vec<u8>>) -> (r: Module)
    requires
        m.wf(),
    ensures
        r@ == remove_exports_spec(m@, names_view(removes@)),
        r.wf(),
{
    let ghost m0 = m@;
    let mut m = m;
    let mut import = ImportVisitor::default();
    import.visit_module(&m);
    let remove = RemoveVisitor::new(import, removes);
    remove.visit_mut_module_items(&mut m.items);
    proof {
        crate::prune::lemma_prune_items_wf(
            m0,
            removed_set(graph_of(m0), names_view(removes@)),
            names_view(removes@),
        );
    }
    m
}

} // verus!
