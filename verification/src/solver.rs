use vstd::prelude::*;

use crate::counter::RefCounter;
use crate::graph::{ExportEntryV, GraphV, ImportVisitor};
use crate::model::{
    contains_id, contains_name, copy_ids, default_name, default_name_bytes, ids_set,
    lemma_ids_set_concat, lemma_ids_set_contains, lemma_ids_set_len, name_in, names_view,
};

verus! {

broadcast use vstd::seq::axiom_seq_index_decreases, vstd::seq::axiom_seq_subrange_decreases, vstd::seq_lib::lemma_seq_contains_after_push;

// ---------------------------------------------------------------------------
// The liveness solver.
//
// Removing a set of export names deletes: every binding whose own declaration
// is exported under a removed name; and, cascading from the removal seeds,
// every binding that only removed code reaches.  A binding reachable from a
// root that stays — a non-declaration top-level statement, a kept export, or
// the default export when it is not removed — is live and never deleted.
// The cascade is a reachability computation on the reference graph, done
// twice: once for the live bindings, once for the removed ones, the live
// ones acting as a wall the removal cascade cannot pass.
// ---------------------------------------------------------------------------

/// A set that contains the base and follows every edge into the key
/// universe that does not hit the wall.
pub open spec fn reach_closed(edges: Map<u64, Set<u64>>, wall: Set<u64>, s: Set<u64>) -> bool {
    forall|x: u64, y: u64|
        s.contains(x) && edges.dom().contains(x) && #[trigger] edges[x].contains(y)
            && edges.dom().contains(y) && !wall.contains(y) ==> s.contains(y)
}

pub open spec fn reach_ok(
    base: Set<u64>,
    edges: Map<u64, Set<u64>>,
    wall: Set<u64>,
    s: Set<u64>,
) -> bool {
    base.subset_of(s) && reach_closed(edges, wall, s)
}

/// What the base reaches along edges of the key universe, stopping at the
/// wall: the least set that contains the base and is closed.
pub open spec fn reach(base: Set<u64>, edges: Map<u64, Set<u64>>, wall: Set<u64>) -> Set<u64> {
    Set::new(
        |x: u64| forall|s: Set<u64>| #[trigger] reach_ok(base, edges, wall, s) ==> s.contains(x),
    )
}

/// The base is reached.
pub proof fn lemma_reach_base(base: Set<u64>, edges: Map<u64, Set<u64>>, wall: Set<u64>, x: u64)
    requires
        base.contains(x),
    ensures
        reach(base, edges, wall).contains(x),
{
    assert forall|s: Set<u64>| #[trigger] reach_ok(base, edges, wall, s) implies s.contains(x) by {
        assert(base.subset_of(s));
    }
}

/// What a reached binding references is reached.
pub proof fn lemma_reach_step(
    base: Set<u64>,
    edges: Map<u64, Set<u64>>,
    wall: Set<u64>,
    x: u64,
    y: u64,
)
    requires
        reach(base, edges, wall).contains(x),
        edges.dom().contains(x),
        edges[x].contains(y),
        edges.dom().contains(y),
        !wall.contains(y),
    ensures
        reach(base, edges, wall).contains(y),
{
    assert forall|s: Set<u64>| #[trigger] reach_ok(base, edges, wall, s) implies s.contains(y) by {
        assert(s.contains(x));
    }
}

/// Nothing else is reached: any closed superset of the base holds the
/// whole reach.
pub proof fn lemma_reach_minimal(
    base: Set<u64>,
    edges: Map<u64, Set<u64>>,
    wall: Set<u64>,
    s: Set<u64>,
)
    requires
        reach_ok(base, edges, wall, s),
    ensures
        reach(base, edges, wall).subset_of(s),
{
}

// ---------------------------------------------------------------------------
// Roots and seeds.
// ---------------------------------------------------------------------------

/// The bindings exported under a name of the removal request.
pub open spec fn matched_ids(exports: Seq<ExportEntryV>, names: Seq<Seq<u8>>) -> Set<u64>
    decreases exports,
{
    if exports.len() == 0 {
        Set::empty()
    } else {
        let r = matched_ids(exports.drop_last(), names);
        if name_in(names, exports.last().name) {
            r.insert(exports.last().id)
        } else {
            r
        }
    }
}

/// The bindings exported under a name that stays.
pub open spec fn kept_ids(exports: Seq<ExportEntryV>, names: Seq<Seq<u8>>) -> Set<u64>
    decreases exports,
{
    if exports.len() == 0 {
        Set::empty()
    } else {
        let r = kept_ids(exports.drop_last(), names);
        if !name_in(names, exports.last().name) {
            r.insert(exports.last().id)
        } else {
            r
        }
    }
}

/// The bindings whose own declaration is exported under a removed name:
/// their deletion is requested, whatever else references them.
pub open spec fn forced_ids(exports: Seq<ExportEntryV>, names: Seq<Seq<u8>>) -> Set<u64>
    decreases exports,
{
    if exports.len() == 0 {
        Set::empty()
    } else {
        let r = forced_ids(exports.drop_last(), names);
        if exports.last().from_decl && name_in(names, exports.last().name) {
            r.insert(exports.last().id)
        } else {
            r
        }
    }
}

/// Whether the default export is requested for removal.
pub open spec fn removing_default(names: Seq<Seq<u8>>) -> bool {
    name_in(names, default_name())
}

/// The roots that keep code alive: global references, the default export's
/// references when it stays, and the kept exports — less the bindings whose
/// deletion is forced.
pub open spec fn live_base(g: GraphV, names: Seq<Seq<u8>>) -> Set<u64> {
    g.globals.union(
        (if removing_default(names) {
            Set::<u64>::empty()
        } else {
            g.defaults
        }),
    ).union(kept_ids(g.exports, names)).intersect(g.decl_refs.dom()).difference(
        forced_ids(g.exports, names),
    )
}

/// The live bindings: what the live roots reach, never entering a forced
/// deletion.
pub open spec fn live_set(g: GraphV, names: Seq<Seq<u8>>) -> Set<u64> {
    reach(live_base(g, names), g.decl_refs, forced_ids(g.exports, names))
}

/// The removal seeds: the bindings of removed exports, and the default
/// export's references when it is removed — less what is live.
pub open spec fn seed_base(g: GraphV, names: Seq<Seq<u8>>) -> Set<u64> {
    matched_ids(g.exports, names).union(
        (if removing_default(names) {
            g.defaults
        } else {
            Set::<u64>::empty()
        }),
    ).intersect(g.decl_refs.dom()).difference(live_set(g, names))
}

/// The removal set: what the removal seeds reach, stopping at live code.
pub open spec fn removed_set(g: GraphV, names: Seq<Seq<u8>>) -> Set<u64> {
    reach(seed_base(g, names), g.decl_refs, live_set(g, names))
}

// ---------------------------------------------------------------------------
// The executable solver.
// ---------------------------------------------------------------------------

/// The sequence of done keys grows only.
proof fn lemma_done_bound(done: Seq<u64>, keys: Seq<u64>)
    requires
        done.no_duplicates(),
        keys.no_duplicates(),
        forall|d: u64| ids_set(done).contains(d) ==> ids_set(keys).contains(d),
    ensures
        done.len() <= keys.len(),
{
    lemma_ids_set_len(done);
    lemma_ids_set_len(keys);
    assert(ids_set(done).subset_of(ids_set(keys)));
    vstd::set_lib::lemma_len_subset(ids_set(done), ids_set(keys));
}

/// Marks everything the roots reach inside the key universe, walking edges
/// and never entering the wall; a root outside the universe or inside the
/// wall is ignored.
fn reach_exec(imports: &ImportVisitor, keys: &Vec<u64>, roots: &Vec<u64>, wall: &Vec<u64>) -> (r:
    Vec<u64>)
    requires
        keys@.no_duplicates(),
        ids_set(keys@) == imports@.decl_refs.dom(),
    ensures
        r@.no_duplicates(),
        ids_set(r@) == reach(
            ids_set(roots@).intersect(imports@.decl_refs.dom()).difference(ids_set(wall@)),
            imports@.decl_refs,
            ids_set(wall@),
        ),
{
    let ghost edges = imports@.decl_refs;
    let ghost wallset = ids_set(wall@);
    let ghost base = ids_set(roots@).intersect(edges.dom()).difference(wallset);
    let mut rc = RefCounter::from_keys(copy_ids(keys));

    // Arm each key outside the wall with one visit.
    proof {
        crate::counter::lemma_zero_counts_dom(keys@);
        assert forall|k: u64| #[trigger] rc@.counts.dom().contains(k) implies rc@.counts[k]
            == 0u32 by {
            crate::counter::lemma_zero_counts_value(keys@, k);
        }
    }
    let mut i: usize = 0;
    while i < keys.len()
        invariant
            i <= keys@.len(),
            rc.wf(),
            rc@.done == Set::<u64>::empty(),
            rc.done@.len() == 0,
            rc@.counts.dom() == edges.dom(),
            forall|k: u64| #[trigger] rc@.counts.dom().contains(k) ==> rc@.counts[k] == (
            if (exists|j: int| 0 <= j < i && keys@[j] == k) && !wallset.contains(k) {
                1u32
            } else {
                0u32
            }),
        decreases keys@.len() - i,
    {
        let k = keys[i];
        proof {
            lemma_ids_set_contains(wall@, k);
            lemma_ids_set_contains(keys@, k);
        }
        if !contains_id(wall, k) {
            proof {
                assert(forall|j: int| 0 <= j < i ==> keys@[j] != k);
                assert(rc@.counts[k] == 0u32);
            }
            rc.count(k);
        }
        i = i + 1;
        proof {
            assert forall|k2: u64| #[trigger] rc@.counts.dom().contains(k2) implies rc@.counts[k2]
                == (if (exists|j: int| 0 <= j < i && keys@[j] == k2) && !wallset.contains(k2) {
                1u32
            } else {
                0u32
            }) by {
                if k2 == k {
                    assert(keys@[i - 1] == k2);
                } else {
                    assert((exists|j: int| 0 <= j < i && keys@[j] == k2) == (exists|j: int|
                        0 <= j < i - 1 && keys@[j] == k2));
                }
            }
        }
    }
    proof {
        assert forall|k: u64| #[trigger] rc@.counts.dom().contains(k) implies rc@.counts[k] == (
        if !wallset.contains(k) {
            1u32
        } else {
            0u32
        }) by {
            lemma_ids_set_contains(keys@, k);
        }
    }

    // Seed: consume each root's visit; a consumed root enters the queue.
    let mut queue: Vec<u64> = Vec::new();
    let mut j: usize = 0;
    while j < roots.len()
        invariant
            j <= roots@.len(),
            rc.wf(),
            rc@.counts.dom() == edges.dom(),
            forall|k: u64| #[trigger] rc@.counts.dom().contains(k) ==> rc@.counts[k] == (
            if wallset.contains(k) || rc@.done.contains(k) {
                0u32
            } else {
                1u32
            }),
            forall|d: u64| #[trigger] rc@.done.contains(d) ==> reach(base, edges, wallset).contains(
                d,
            ),
            forall|d: u64| #[trigger] rc@.done.contains(d) ==> edges.dom().contains(d)
                && !wallset.contains(d),
            forall|d: u64| #[trigger] rc@.done.contains(d) ==> queue@.contains(d),
            forall|q: u64| #[trigger] queue@.contains(q) ==> rc@.done.contains(q),
            forall|jj: int| 0 <= jj < j ==> (edges.dom().contains(#[trigger] roots@[jj])
                && !wallset.contains(roots@[jj])) ==> rc@.done.contains(roots@[jj]),
            rc.done@.len() <= keys@.len(),
        decreases roots@.len() - j,
    {
        let t = roots[j];
        let zeroed = rc.discount(t);
        if zeroed {
            queue.push(t);
            proof {
                lemma_ids_set_contains(roots@, t);
                lemma_reach_base(base, edges, wallset, t);
            }
        }
        j = j + 1;
        proof {
            lemma_done_bound(rc.done@, keys@);
        }
    }
    proof {
        assert forall|x: u64| base.contains(x) implies rc@.done.contains(x) by {
            lemma_ids_set_contains(roots@, x);
            let jj = choose|jj: int| 0 <= jj < roots@.len() && roots@[jj] == x;
            assert(edges.dom().contains(roots@[jj]) && !wallset.contains(roots@[jj]));
        }
    }

    // Walk: consume the visits of everything a queued binding references.
    while queue.len() > 0
        invariant
            rc.wf(),
            keys@.no_duplicates(),
            ids_set(keys@) == edges.dom(),
            rc@.counts.dom() == edges.dom(),
            forall|k: u64| #[trigger] rc@.counts.dom().contains(k) ==> rc@.counts[k] == (
            if wallset.contains(k) || rc@.done.contains(k) {
                0u32
            } else {
                1u32
            }),
            forall|d: u64| #[trigger] rc@.done.contains(d) ==> reach(base, edges, wallset).contains(
                d,
            ),
            forall|d: u64| #[trigger] rc@.done.contains(d) ==> edges.dom().contains(d)
                && !wallset.contains(d),
            forall|q: u64| #[trigger] queue@.contains(q) ==> rc@.done.contains(q),
            forall|x: u64| base.contains(x) ==> rc@.done.contains(x),
            forall|d: u64, y: u64|
                rc@.done.contains(d) && !queue@.contains(d) && edges.dom().contains(d)
                    && #[trigger] edges[d].contains(y) && edges.dom().contains(y)
                    && !wallset.contains(y) ==> rc@.done.contains(y),
            rc.done@.len() <= keys@.len(),
        decreases keys@.len() - rc.done@.len(), queue@.len(),
    {
        let ghost queue0 = queue@;
        let popped = queue.pop();
        match popped {
            None => {
                proof {
                    assert(false);
                }
            }
            Some(id) => {
                proof {
                    assert(queue0.len() > 0);
                    assert(id == queue0.last());
                    assert(queue0.contains(queue0.last()));
                    assert(queue0.drop_last() =~= queue@);
                    assert(forall|q: u64| #[trigger] queue0.contains(q) ==> rc@.done.contains(q));
                    assert(rc@.done.contains(id));
                    assert forall|q: u64| #[trigger] queue@.contains(q) implies rc@.done.contains(
                        q,
                    ) by {
                        let qi = choose|qi: int| 0 <= qi < queue@.len() && queue@[qi] == q;
                        assert(queue0[qi] == q);
                        assert(queue0.contains(q));
                    }
                    assert forall|d: u64|
                        rc@.done.contains(d) && !queue@.contains(d) && d != id implies !queue0.contains(
                        d,
                    ) by {
                        if queue0.contains(d) {
                            let di = choose|di: int| 0 <= di < queue0.len() && queue0[di] == d;
                            if di < queue0.len() - 1 {
                                assert(queue@[di] == d);
                                assert(queue@.contains(d));
                            } else {
                                assert(d == id);
                            }
                        }
                    }
                }
                let ghost done1 = rc.done@;
                let ghost queue1 = queue@;
                let refs = imports.refs_of(id);
                let mut t: usize = 0;
                while t < refs.len()
                    invariant
                        t <= refs@.len(),
                        rc.wf(),
                        rc@.counts.dom() == edges.dom(),
                        edges.dom().contains(id),
                        ids_set(refs@) == edges[id],
                        forall|k: u64| #[trigger] rc@.counts.dom().contains(k) ==> rc@.counts[k]
                            == (if wallset.contains(k) || rc@.done.contains(k) {
                            0u32
                        } else {
                            1u32
                        }),
                        forall|d: u64| #[trigger] rc@.done.contains(d) ==> reach(
                            base,
                            edges,
                            wallset,
                        ).contains(d),
                        forall|d: u64| #[trigger] rc@.done.contains(d) ==> edges.dom().contains(d)
                            && !wallset.contains(d),
                        forall|q: u64| #[trigger] queue@.contains(q) ==> rc@.done.contains(q),
                        forall|x: u64| base.contains(x) ==> rc@.done.contains(x),
                        rc@.done.contains(id),
                        forall|d: u64, y: u64|
                            rc@.done.contains(d) && !queue@.contains(d) && d != id
                                && edges.dom().contains(d) && #[trigger] edges[d].contains(y)
                                && edges.dom().contains(y) && !wallset.contains(y)
                                ==> rc@.done.contains(y),
                        forall|tt: int| 0 <= tt < t ==> (edges.dom().contains(
                            #[trigger] refs@[tt],
                        ) && !wallset.contains(refs@[tt])) ==> rc@.done.contains(refs@[tt]),
                        rc.done@.len() <= keys@.len(),
                        rc.done@.len() - done1.len() == queue@.len() - queue1.len(),
                        rc.done@.len() >= done1.len(),
                    decreases refs@.len() - t,
                {
                    let y = refs[t];
                    let zeroed = rc.discount(y);
                    if zeroed {
                        queue.push(y);
                        proof {
                            lemma_ids_set_contains(refs@, y);
                            lemma_reach_step(base, edges, wallset, id, y);
                        }
                    }
                    t = t + 1;
                    proof {
                        lemma_done_bound(rc.done@, keys@);
                    }
                }
                proof {
                    assert forall|d: u64, y: u64|
                        rc@.done.contains(d) && !queue@.contains(d) && edges.dom().contains(d)
                            && #[trigger] edges[d].contains(y) && edges.dom().contains(y)
                            && !wallset.contains(y) implies rc@.done.contains(y) by {
                        if d == id {
                            lemma_ids_set_contains(refs@, y);
                            let tt = choose|tt: int| 0 <= tt < refs@.len() && refs@[tt] == y;
                        }
                    }
                }
            }
        }
    }

    // The marks are exactly the reach: every mark was justified, and the
    // marks, holding the base and closed under edges, hold the whole reach.
    proof {
        assert(reach_closed(edges, wallset, rc@.done));
        assert(reach_ok(base, edges, wallset, rc@.done));
        lemma_reach_minimal(base, edges, wallset, rc@.done);
        assert(ids_set(rc.done@) =~= reach(base, edges, wallset));
    }
    let done = rc.done;
    done
}

// ---------------------------------------------------------------------------
// The removal decision.
// ---------------------------------------------------------------------------

/// What the pruner consults: the removal request by name, and the computed
/// set of bindings to delete.
#[derive(Debug)]
pub struct RemoveVisitor {
    pub names: Vec<Vec<u8>>,
    pub ids: Vec<u64>,
}

impl RemoveVisitor {
    /// Solves the liveness problem: from the reference graph and the removal
    /// request, the exact set of bindings to delete.
    pub fn new(imports: ImportVisitor, removes: Vec<Vec<u8>>) -> (r: Self)
        ensures
            names_view(r.names@) == names_view(removes@),
            ids_set(r.ids@) == removed_set(imports@, names_view(removes@)),
            r.ids@.no_duplicates(),
    {
        let ghost g = imports@;
        let ghost names = names_view(removes@);
        let keys = imports.keys();
        let dflt = default_name_bytes();
        let removing_dflt = contains_name(&removes, &dflt);

        // The walls of the live walk: the forced deletions.
        let mut forced: Vec<u64> = Vec::new();
        let ghost ev = crate::graph::entries_view(imports.export_decls@);
        proof {
            assert(forced_ids(ev.take(0int), names) =~= Set::<u64>::empty());
            assert(ids_set(forced@) =~= Set::<u64>::empty());
        }
        let mut i: usize = 0;
        while i < imports.export_decls.len()
            invariant
                i <= imports.export_decls@.len(),
                ev == crate::graph::entries_view(imports.export_decls@),
                names == names_view(removes@),
                ids_set(forced@) == forced_ids(ev.take(i as int), names),
            decreases imports.export_decls@.len() - i,
        {
            let e = &imports.export_decls[i];
            if e.from_decl && contains_name(&removes, &e.name) {
                let ghost f0 = forced@;
                forced.push(e.id);
                proof {
                    assert(forced@.drop_last() =~= f0);
                }
            }
            i = i + 1;
            proof {
                assert(ev.take(i as int).drop_last() =~= ev.take(i - 1));
                assert(ev.take(i as int).last() == ev[i - 1]);
                assert(ev[i - 1] == crate::graph::entry_view(imports.export_decls@[i - 1]));
                assert(ids_set(forced@) =~= forced_ids(ev.take(i as int), names));
            }
        }
        proof {
            assert(ev.take(ev.len() as int) =~= ev);
        }

        // The live roots: global references, the default export's references
        // when it stays, and the kept exports.
        let mut live_roots: Vec<u64> = copy_ids(&imports.global_refs);
        let ghost lr1 = live_roots@;
        if !removing_dflt {
            let defaults = copy_ids(&imports.export_default_refs);
            let mut k: usize = 0;
            while k < defaults.len()
                invariant
                    k <= defaults@.len(),
                    live_roots@ == lr1 + defaults@.take(k as int),
                decreases defaults@.len() - k,
            {
                live_roots.push(defaults[k]);
                k = k + 1;
                proof {
                    assert(live_roots@ =~= lr1 + defaults@.take(k as int));
                }
            }
            proof {
                assert(defaults@.take(defaults@.len() as int) =~= defaults@);
                lemma_ids_set_concat(lr1, defaults@);
            }
        }
        proof {
            assert(ids_set(live_roots@) =~= g.globals.union(
                if removing_default(names) {
                    Set::<u64>::empty()
                } else {
                    g.defaults
                },
            ));
        }
        let ghost lr2 = live_roots@;
        let mut i2: usize = 0;
        proof {
            assert(kept_ids(ev.take(0int), names) =~= Set::<u64>::empty());
        }
        while i2 < imports.export_decls.len()
            invariant
                i2 <= imports.export_decls@.len(),
                ev == crate::graph::entries_view(imports.export_decls@),
                names == names_view(removes@),
                ids_set(live_roots@) == ids_set(lr2).union(kept_ids(ev.take(i2 as int), names)),
            decreases imports.export_decls@.len() - i2,
        {
            let e = &imports.export_decls[i2];
            if !contains_name(&removes, &e.name) {
                let ghost l0 = live_roots@;
                live_roots.push(e.id);
                proof {
                    assert(live_roots@.drop_last() =~= l0);
                }
            }
            i2 = i2 + 1;
            proof {
                assert(ev.take(i2 as int).drop_last() =~= ev.take(i2 - 1));
                assert(ev.take(i2 as int).last() == ev[i2 - 1]);
                assert(ev[i2 - 1] == crate::graph::entry_view(imports.export_decls@[i2 - 1]));
                assert(ids_set(live_roots@) =~= ids_set(lr2).union(
                    kept_ids(ev.take(i2 as int), names),
                ));
            }
        }
        proof {
            assert(ev.take(ev.len() as int) =~= ev);
        }

        let live = reach_exec(&imports, &keys, &live_roots, &forced);
        proof {
            assert(ids_set(live_roots@).intersect(g.decl_refs.dom()).difference(
                ids_set(forced@),
            ) =~= live_base(g, names));
            assert(ids_set(live@) == live_set(g, names));
        }

        // The removal seeds: removed exports, and the default export's
        // references when it is removed.
        let mut seeds: Vec<u64> = Vec::new();
        proof {
            assert(matched_ids(ev.take(0int), names) =~= Set::<u64>::empty());
            assert(ids_set(seeds@) =~= Set::<u64>::empty());
        }
        let mut i3: usize = 0;
        while i3 < imports.export_decls.len()
            invariant
                i3 <= imports.export_decls@.len(),
                ev == crate::graph::entries_view(imports.export_decls@),
                names == names_view(removes@),
                ids_set(seeds@) == matched_ids(ev.take(i3 as int), names),
            decreases imports.export_decls@.len() - i3,
        {
            let e = &imports.export_decls[i3];
            if contains_name(&removes, &e.name) {
                let ghost s0 = seeds@;
                seeds.push(e.id);
                proof {
                    assert(seeds@.drop_last() =~= s0);
                }
            }
            i3 = i3 + 1;
            proof {
                assert(ev.take(i3 as int).drop_last() =~= ev.take(i3 - 1));
                assert(ev.take(i3 as int).last() == ev[i3 - 1]);
                assert(ev[i3 - 1] == crate::graph::entry_view(imports.export_decls@[i3 - 1]));
                assert(ids_set(seeds@) =~= matched_ids(ev.take(i3 as int), names));
            }
        }
        proof {
            assert(ev.take(ev.len() as int) =~= ev);
        }
        let ghost sd1 = seeds@;
        if removing_dflt {
            let defaults = copy_ids(&imports.export_default_refs);
            let mut k: usize = 0;
            while k < defaults.len()
                invariant
                    k <= defaults@.len(),
                    seeds@ == sd1 + defaults@.take(k as int),
                decreases defaults@.len() - k,
            {
                seeds.push(defaults[k]);
                k = k + 1;
                proof {
                    assert(seeds@ =~= sd1 + defaults@.take(k as int));
                }
            }
            proof {
                assert(defaults@.take(defaults@.len() as int) =~= defaults@);
                lemma_ids_set_concat(sd1, defaults@);
            }
        }
        proof {
            assert(ids_set(seeds@) =~= matched_ids(ev, names).union(
                if removing_default(names) {
                    g.defaults
                } else {
                    Set::<u64>::empty()
                },
            ));
        }

        let removed = reach_exec(&imports, &keys, &seeds, &live);
        proof {
            assert(ids_set(seeds@).intersect(g.decl_refs.dom()).difference(ids_set(live@)) =~=
                seed_base(g, names));
            assert(ids_set(removed@) == removed_set(g, names));
        }

        RemoveVisitor { names: removes, ids: removed }
    }
}

} // verus!
