use vstd::prelude::*;

use crate::model::ids_set;

verus! {

broadcast use vstd::seq::axiom_seq_index_decreases, vstd::seq::axiom_seq_subrange_decreases;

// ---------------------------------------------------------------------------
// A reference counter over binding identities.
//
// It keeps one count per key of a fixed key universe, and a set of keys that
// have been marked done.  Discounting a key whose count is already zero is a
// no-op, so a key can be consumed at most once between arming and marking;
// the solver leans on exactly that discipline to visit each binding at most
// once.
// ---------------------------------------------------------------------------

/// The counts as recorded, later records of a key overriding earlier ones.
pub open spec fn counts_map(s: Seq<(u64, u32)>) -> Map<u64, u32>
    decreases s,
{
    if s.len() == 0 {
        Map::empty()
    } else {
        counts_map(s.drop_last()).insert(s.last().0, s.last().1)
    }
}

/// No key occurs twice.
pub open spec fn unique_keys(s: Seq<(u64, u32)>) -> bool {
    forall|i: int, j: int| 0 <= i < j < s.len() ==> (#[trigger] s[i]).0 != (#[trigger] s[j]).0
}

/// Zero counts over a key list.
pub open spec fn zero_counts(keys: Seq<u64>) -> Map<u64, u32>
    decreases keys,
{
    if keys.len() == 0 {
        Map::empty()
    } else {
        zero_counts(keys.drop_last()).insert(keys.last(), 0u32)
    }
}

/// With unique keys, the recorded entry of a key is its mapping.
pub proof fn lemma_counts_map_index(s: Seq<(u64, u32)>, i: int)
    requires
        unique_keys(s),
        0 <= i < s.len(),
    ensures
        counts_map(s).dom().contains(s[i].0),
        counts_map(s)[s[i].0] == s[i].1,
    decreases s,
{
    if i < s.len() - 1 {
        lemma_counts_map_index(s.drop_last(), i);
    }
}

/// A key recorded nowhere is not in the map.
pub proof fn lemma_counts_map_absent(s: Seq<(u64, u32)>, k: u64)
    requires
        forall|i: int| 0 <= i < s.len() ==> (#[trigger] s[i]).0 != k,
    ensures
        !counts_map(s).dom().contains(k),
    decreases s,
{
    if s.len() > 0 {
        lemma_counts_map_absent(s.drop_last(), k);
    }
}

/// Updating the entry of a key updates its mapping and nothing else.
pub proof fn lemma_counts_map_update(s: Seq<(u64, u32)>, i: int, v: u32)
    requires
        unique_keys(s),
        0 <= i < s.len(),
    ensures
        counts_map(s.update(i, (s[i].0, v))) == counts_map(s).insert(s[i].0, v),
        unique_keys(s.update(i, (s[i].0, v))),
    decreases s,
{
    let t = s.update(i, (s[i].0, v));
    if i == s.len() - 1 {
        assert(t.drop_last() =~= s.drop_last());
        assert(counts_map(t) =~= counts_map(s).insert(s[i].0, v));
    } else {
        lemma_counts_map_update(s.drop_last(), i, v);
        assert(t.drop_last() =~= s.drop_last().update(i, (s[i].0, v)));
        assert(t.last() == s.last());
        assert(counts_map(t) =~= counts_map(s).insert(s[i].0, v));
    }
}

/// The counts of a key universe, with the keys already marked done.
pub struct RefCounter {
    pub map: Vec<(u64, u32)>,
    pub done: Vec<u64>,
}

#[verifier::ext_equal]
pub struct RefCounterV {
    pub counts: Map<u64, u32>,
    pub done: Set<u64>,
}

impl View for RefCounter {
    type V = RefCounterV;

    open spec fn view(&self) -> RefCounterV {
        RefCounterV { counts: counts_map(self.map@), done: ids_set(self.done@) }
    }
}

impl RefCounter {
    /// The keys are recorded once each, and the marks are recorded once each.
    pub open spec fn wf(&self) -> bool {
        &&& unique_keys(self.map@)
        &&& self.done@.no_duplicates()
    }

    /// The position of a key's record.
    fn find_key(&self, key: u64) -> (r: Option<usize>)
        ensures
            match r {
                Some(i) => i < self.map@.len() && self.map@[i as int].0 == key,
                None => forall|i: int| 0 <= i < self.map@.len() ==> (#[trigger] self.map@[i]).0
                    != key,
            },
    {
        let mut i: usize = 0;
        while i < self.map.len()
            invariant
                i <= self.map@.len(),
                forall|j: int| 0 <= j < i ==> (#[trigger] self.map@[j]).0 != key,
            decreases self.map@.len() - i,
        {
            if self.map[i].0 == key {
                return Some(i);
            }
            i = i + 1;
        }
        None
    }

    /// A counter with a zero count for every key, none of them done.
    pub fn from_keys(keys: Vec<u64>) -> (r: Self)
        ensures
            r.wf(),
            r@.counts == zero_counts(keys@),
            r@.done == Set::<u64>::empty(),
            r.done@.len() == 0,
    {
        let mut r = RefCounter { map: Vec::new(), done: Vec::new() };
        assert(r@.counts =~= zero_counts(keys@.take(0int)));
        let mut i: usize = 0;
        while i < keys.len()
            invariant
                i <= keys@.len(),
                r.wf(),
                r.done@.len() == 0,
                r@.counts == zero_counts(keys@.take(i as int)),
            decreases keys@.len() - i,
        {
            let k = keys[i];
            let ghost m0 = r.map@;
            match r.find_key(k) {
                Some(_) => {
                    proof {
                        let mi = choose|mi: int| 0 <= mi < m0.len() && m0[mi].0 == k;
                        lemma_counts_map_index(m0, mi);
                        assert(m0[mi].1 == 0) by {
                            lemma_zero_counts_value(keys@.take(i as int), k);
                        }
                        assert(counts_map(m0).insert(k, 0u32) =~= counts_map(m0));
                    }
                }
                None => {
                    r.map.push((k, 0u32));
                    proof {
                        assert(r.map@.drop_last() =~= m0);
                    }
                }
            }
            i = i + 1;
            proof {
                assert(keys@.take(i as int).drop_last() =~= keys@.take(i - 1));
                assert(keys@.take(i as int).last() == keys@[i - 1]);
                assert(r@.counts =~= zero_counts(keys@.take(i as int)));
            }
        }
        proof {
            assert(keys@.take(keys@.len() as int) =~= keys@);
            assert(r@.done =~= Set::<u64>::empty());
        }
        r
    }

    /// Adds one reference to a key of the universe; other keys are ignored.
    pub fn count(&mut self, key: u64)
        requires
            old(self).wf(),
            old(self)@.counts.dom().contains(key) ==> old(self)@.counts[key] < u32::MAX,
        ensures
            final(self).wf(),
            final(self)@.done == old(self)@.done,
            final(self).done@ == old(self).done@,
            final(self)@.counts == (if old(self)@.counts.dom().contains(key) {
                old(self)@.counts.insert(key, (old(self)@.counts[key] + 1) as u32)
            } else {
                old(self)@.counts
            }),
    {
        match self.find_key(key) {
            Some(i) => {
                proof {
                    lemma_counts_map_index(self.map@, i as int);
                }
                let c = self.map[i].1;
                let ghost m0 = self.map@;
                let prev = self.map.remove(i);
                self.map.insert(i, (key, c + 1));
                proof {
                    assert(self.map@ =~= m0.update(i as int, (m0[i as int].0, (c + 1) as u32)));
                    lemma_counts_map_update(m0, i as int, (c + 1) as u32);
                }
            }
            None => {
                proof {
                    lemma_counts_map_absent(self.map@, key);
                }
            }
        }
    }

    /// Takes one reference from a key of the universe; a key with no
    /// references left, or outside the universe, is left untouched.  Marks
    /// the key done when its count reaches zero, and says so.
    pub fn discount(&mut self, key: u64) -> (zeroed: bool)
        requires
            old(self).wf(),
        ensures
            final(self).wf(),
            zeroed == (old(self)@.counts.dom().contains(key) && old(self)@.counts[key] == 1),
            final(self)@.counts == (if old(self)@.counts.dom().contains(key) && old(
                self,
            )@.counts[key] > 0 {
                old(self)@.counts.insert(key, (old(self)@.counts[key] - 1) as u32)
            } else {
                old(self)@.counts
            }),
            final(self)@.done == (if zeroed {
                old(self)@.done.insert(key)
            } else {
                old(self)@.done
            }),
            final(self).done@ == (if zeroed && !old(self)@.done.contains(key) {
                old(self).done@.push(key)
            } else {
                old(self).done@
            }),
    {
        match self.find_key(key) {
            Some(i) => {
                proof {
                    lemma_counts_map_index(self.map@, i as int);
                }
                let c = self.map[i].1;
                if c == 0 {
                    // never armed, or already consumed
                    return false;
                }
                let ghost m0 = self.map@;
                let prev = self.map.remove(i);
                self.map.insert(i, (key, c - 1));
                proof {
                    assert(self.map@ =~= m0.update(i as int, (m0[i as int].0, (c - 1) as u32)));
                    lemma_counts_map_update(m0, i as int, (c - 1) as u32);
                }
                if c == 1 {
                    self.mark(key);
                    return true;
                }
                false
            }
            None => {
                proof {
                    lemma_counts_map_absent(self.map@, key);
                }
                false
            }
        }
    }

    /// Marks a key done.
    pub fn mark(&mut self, key: u64)
        requires
            old(self).wf(),
        ensures
            final(self).wf(),
            final(self)@.counts == old(self)@.counts,
            final(self)@.done == old(self)@.done.insert(key),
            final(self).done@ == (if old(self)@.done.contains(key) {
                old(self).done@
            } else {
                old(self).done@.push(key)
            }),
    {
        let ghost d0 = self.done@;
        proof {
            crate::model::lemma_ids_set_contains(d0, key);
        }
        if !crate::model::contains_id(&self.done, key) {
            self.done.push(key);
            proof {
                assert(self.done@.drop_last() =~= d0);
                assert(ids_set(self.done@) =~= ids_set(d0).insert(key));
            }
        } else {
            proof {
                assert(ids_set(d0).insert(key) =~= ids_set(d0));
            }
        }
    }
}


/// Every key of a zero-count map counts zero.
pub proof fn lemma_zero_counts_value(keys: Seq<u64>, k: u64)
    ensures
        zero_counts(keys).dom().contains(k) ==> zero_counts(keys)[k] == 0,
        zero_counts(keys).dom().contains(k) <==> keys.contains(k),
    decreases keys,
{
    if keys.len() > 0 {
        lemma_zero_counts_value(keys.drop_last(), k);
        if keys.contains(k) {
            let i = choose|i: int| 0 <= i < keys.len() && keys[i] == k;
            if i < keys.len() - 1 {
                assert(keys.drop_last()[i] == k);
            }
        }
        if keys.drop_last().contains(k) {
            let i = choose|i: int| 0 <= i < keys.drop_last().len() && keys.drop_last()[i] == k;
            assert(keys[i] == k);
        }
    }
}

/// The domain of a zero-count map is the key set.
pub proof fn lemma_zero_counts_dom(keys: Seq<u64>)
    ensures
        zero_counts(keys).dom() == ids_set(keys),
{
    assert forall|k: u64| #[trigger] zero_counts(keys).dom().contains(k) implies ids_set(
        keys,
    ).contains(k) by {
        lemma_zero_counts_value(keys, k);
        crate::model::lemma_ids_set_contains(keys, k);
    }
    assert forall|k: u64| #[trigger] ids_set(keys).contains(k) implies zero_counts(
        keys,
    ).dom().contains(k) by {
        lemma_zero_counts_value(keys, k);
        crate::model::lemma_ids_set_contains(keys, k);
    }
    assert(zero_counts(keys).dom() =~= ids_set(keys));
}

} // verus!
