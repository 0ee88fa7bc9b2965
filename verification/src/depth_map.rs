//! The children of one parent: a mapping from depth to node, held in a
//! hash map and walked in increasing order of depth, so that every
//! traversal is deterministic whatever order the hash map has.

use crate::prelude::Depth;
use std::collections::HashMap;
use vstd::prelude::*;
use vstd::std_specs::hash::spec_hash_map_iter;
use vstd::std_specs::iter::IteratorSpec;

verus! {

broadcast use vstd::std_specs::hash::group_hash_axioms;

/// Handle of a node in the scene graph's arena.
pub type NodeId = usize;

/// Entries in strictly increasing order of depth.
pub open spec fn sorted(entries: Seq<(Depth, NodeId)>) -> bool {
    forall|i: int, j: int|
        0 <= i < j < entries.len() ==> (#[trigger] entries[i]).0 < (#[trigger] entries[j]).0
}

/// The mapping that a list of entries stands for.
pub open spec fn entries_map(entries: Seq<(Depth, NodeId)>) -> Map<Depth, NodeId> {
    Map::new(
        |d: Depth| exists|i: int| 0 <= i < entries.len() && (#[trigger] entries[i]).0 == d,
        |d: Depth| entries[choose|i: int| 0 <= i < entries.len() && (#[trigger] entries[i]).0 == d].1,
    )
}

/// The entries of `m` whose depth is below `hi`, in increasing order of
/// depth.
pub open spec fn entries_below(m: Map<Depth, NodeId>, hi: int) -> Seq<(Depth, NodeId)>
    decreases hi + 0x8000,
{
    if hi <= -0x8000 {
        Seq::empty()
    } else {
        let rest = entries_below(m, hi - 1);
        let d = (hi - 1) as Depth;
        if hi <= 0x8000 && m.contains_key(d) {
            rest.push((d, m[d]))
        } else {
            rest
        }
    }
}

/// The entries of `m` in increasing order of depth: the order in which
/// children are visited.
pub open spec fn ordered_entries(m: Map<Depth, NodeId>) -> Seq<(Depth, NodeId)> {
    entries_below(m, 0x8000)
}

/// In a sorted list, each entry is found under its own depth.
pub proof fn lemma_entries_map_index(entries: Seq<(Depth, NodeId)>, i: int)
    requires
        sorted(entries),
        0 <= i < entries.len(),
    ensures
        entries_map(entries).contains_key(entries[i].0),
        entries_map(entries)[entries[i].0] == entries[i].1,
{
}

/// The number of entries of a sorted list whose depth is below `hi`.
pub open spec fn count_below(entries: Seq<(Depth, NodeId)>, hi: int) -> int
    decreases entries.len(),
{
    if entries.len() == 0 {
        0
    } else if entries.last().0 < hi {
        entries.len() as int
    } else {
        count_below(entries.drop_last(), hi)
    }
}

proof fn lemma_count_below(entries: Seq<(Depth, NodeId)>, hi: int)
    requires
        sorted(entries),
    ensures
        0 <= count_below(entries, hi) <= entries.len(),
        forall|i: int| 0 <= i < count_below(entries, hi) ==> (#[trigger] entries[i]).0 < hi,
        forall|i: int| count_below(entries, hi) <= i < entries.len() ==> (#[trigger] entries[i]).0 >= hi,
    decreases entries.len(),
{
    if entries.len() > 0 && entries.last().0 >= hi {
        let rest = entries.drop_last();
        lemma_count_below(rest, hi);
        assert forall|i: int| 0 <= i < count_below(entries, hi) implies (#[trigger] entries[i]).0
            < hi by {
            assert(rest[i].0 < hi);
        }
        assert forall|i: int| count_below(entries, hi) <= i < entries.len() implies (
        #[trigger] entries[i]).0 >= hi by {
            if i < entries.len() - 1 {
                assert(rest[i].0 >= hi);
            }
        }
    }
}

proof fn lemma_entries_below(entries: Seq<(Depth, NodeId)>, hi: int)
    requires
        sorted(entries),
        -0x8000 <= hi <= 0x8000,
    ensures
        entries_below(entries_map(entries), hi) == entries.subrange(0, count_below(entries, hi)),
    decreases hi + 0x8000,
{
    lemma_count_below(entries, hi);
    let k = count_below(entries, hi);
    if hi <= -0x8000 {
        if k > 0 {
            assert(entries[0].0 < hi);
        }
    } else {
        lemma_entries_below(entries, hi - 1);
        lemma_count_below(entries, hi - 1);
        let k0 = count_below(entries, hi - 1);
        if k0 < k {
            if k0 + 1 < k {
                assert(entries[k0 + 1].0 < hi);
            }
            lemma_entries_map_index(entries, k0);
        } else if k < k0 {
            assert(entries[k].0 < hi - 1);
        }
    }
}

/// A sorted list is the ordered list of the mapping it stands for.
pub proof fn lemma_ordered_entries(entries: Seq<(Depth, NodeId)>)
    requires
        sorted(entries),
    ensures
        ordered_entries(entries_map(entries)) == entries,
{
    lemma_entries_below(entries, 0x8000);
}

proof fn lemma_entries_below_of_map(m: Map<Depth, NodeId>, hi: int)
    requires
        -0x8000 <= hi <= 0x8000,
    ensures
        sorted(entries_below(m, hi)),
        forall|i: int|
            0 <= i < entries_below(m, hi).len() ==> {
                let e = #[trigger] entries_below(m, hi)[i];
                e.0 < hi && m.contains_key(e.0) && m[e.0] == e.1
            },
        forall|d: Depth|
            d < hi && m.contains_key(d) ==> exists|i: int|
                0 <= i < entries_below(m, hi).len() && (#[trigger] entries_below(m, hi)[i]).0 == d,
    decreases hi + 0x8000,
{
    if hi > -0x8000 {
        lemma_entries_below_of_map(m, hi - 1);
        let rest = entries_below(m, hi - 1);
        let all = entries_below(m, hi);
        let top = (hi - 1) as Depth;
        assert forall|d: Depth| d < hi && m.contains_key(d) implies exists|i: int|
            0 <= i < all.len() && (#[trigger] all[i]).0 == d by {
            if d == top {
                assert(all[all.len() - 1].0 == d);
            } else {
                let i = choose|i: int| 0 <= i < rest.len() && (#[trigger] rest[i]).0 == d;
                assert(all[i].0 == d);
            }
        }
    }
}

/// The ordered entries of a mapping are its entries, each once, in
/// strictly increasing order of depth: depth alone decides the order in
/// which children are visited.
pub proof fn lemma_ordered_entries_of_map(m: Map<Depth, NodeId>)
    ensures
        sorted(ordered_entries(m)),
        entries_map(ordered_entries(m)) == m,
        forall|i: int|
            0 <= i < ordered_entries(m).len() ==> m.contains_key(
                (#[trigger] ordered_entries(m)[i]).0,
            ) && m[ordered_entries(m)[i].0] == ordered_entries(m)[i].1,
{
    lemma_entries_below_of_map(m, 0x8000);
}

/// A mapping with finitely many entries has as many ordered entries as it
/// has entries.
pub proof fn lemma_ordered_len(m: Map<Depth, NodeId>)
    requires
        m.dom().finite(),
    ensures
        ordered_entries(m).len() == m.dom().len(),
{
    let entries = ordered_entries(m);
    lemma_ordered_entries_of_map(m);
    let keys = Seq::new(entries.len(), |i: int| entries[i].0);
    assert(keys.no_duplicates()) by {
        assert forall|a: int, b: int| 0 <= a < keys.len() && 0 <= b < keys.len() && a != b implies keys[a]
            != keys[b] by {
            if a < b {
                assert(entries[a].0 < entries[b].0);
            } else {
                assert(entries[b].0 < entries[a].0);
            }
        }
    }
    keys.unique_seq_to_set();
    assert(keys.to_set() =~= m.dom()) by {
        assert forall|d: Depth| keys.to_set().contains(d) == m.dom().contains(d) by {
            if keys.contains(d) {
                let i = choose|i: int| 0 <= i < keys.len() && keys[i] == d;
                assert(m.contains_key(entries[i].0));
            }
            if m.contains_key(d) {
                assert(entries_map(entries).contains_key(d));
                let i = choose|i: int| 0 <= i < entries.len() && (#[trigger] entries[i]).0 == d;
                assert(keys[i] == d);
            }
        }
    }
}

/// Entries on their way into increasing order of depth.
struct Ordered {
    entries: Vec<(Depth, NodeId)>,
}

impl Ordered {
    /// The mapping that the entries stand for.
    spec fn model(&self) -> Map<Depth, NodeId> {
        entries_map(self.entries@)
    }

    /// The entries are in increasing order of depth.
    spec fn wf(&self) -> bool {
        sorted(self.entries@)
    }

    /// No entries.
    fn new() -> (m: Ordered)
        ensures
            m.wf(),
            m.model() == Map::<Depth, NodeId>::empty(),
    {
        let m = Ordered { entries: Vec::new() };
        proof {
            assert(m.model() =~= Map::<Depth, NodeId>::empty());
        }
        m
    }

    /// The first position whose depth is not below `depth`.
    fn slot(&self, depth: Depth) -> (k: usize)
        requires
            self.wf(),
        ensures
            k <= self.entries@.len(),
            forall|i: int| 0 <= i < k ==> (#[trigger] self.entries@[i]).0 < depth,
            forall|i: int| k <= i < self.entries@.len() ==> (#[trigger] self.entries@[i]).0 >= depth,
    {
        let mut k: usize = 0;
        while k < self.entries.len() && self.entries[k].0 < depth
            invariant
                k <= self.entries@.len(),
                forall|i: int| 0 <= i < k ==> (#[trigger] self.entries@[i]).0 < depth,
            decreases self.entries@.len() - k,
        {
            k += 1;
        }
        k
    }

    /// Puts the entry at its place in the order, in place of an entry at
    /// the same depth.
    fn insert(&mut self, depth: Depth, node: NodeId)
        requires
            old(self).wf(),
        ensures
            final(self).wf(),
            final(self).model() == old(self).model().insert(depth, node),
    {
        let k = self.slot(depth);
        let ghost before = self.entries@;
        if k < self.entries.len() && self.entries[k].0 == depth {
            self.entries[k] = (depth, node);
            proof {
                let after = self.entries@;
                assert(entries_map(after) =~= entries_map(before).insert(depth, node)) by {
                    assert forall|d: Depth| #[trigger]
                        entries_map(after).contains_key(d) == entries_map(before).insert(
                            depth,
                            node,
                        ).contains_key(d) by {
                        if entries_map(before).contains_key(d) {
                            let i = choose|i: int|
                                0 <= i < before.len() && (#[trigger] before[i]).0 == d;
                            assert(after[i].0 == d);
                        }
                    }
                }
            }
        } else {
            self.entries.insert(k, (depth, node));
            proof {
                let after = self.entries@;
                assert(entries_map(after) =~= entries_map(before).insert(depth, node)) by {
                    assert forall|d: Depth| #[trigger]
                        entries_map(after).contains_key(d) == entries_map(before).insert(
                            depth,
                            node,
                        ).contains_key(d) by {
                        if entries_map(before).contains_key(d) {
                            let i = choose|i: int|
                                0 <= i < before.len() && (#[trigger] before[i]).0 == d;
                            let ai = if i < k { i } else { i + 1 };
                            assert(after[ai].0 == d);
                        }
                        if d == depth {
                            assert(after[k as int].0 == d);
                        }
                    }
                }
            }
        }
    }
}

/// The children of one parent, by depth.
pub struct DepthMap {
    map: HashMap<Depth, NodeId>,
}

impl View for DepthMap {
    type V = Map<Depth, NodeId>;

    closed spec fn view(&self) -> Map<Depth, NodeId> {
        self.map@
    }
}

impl DepthMap {
    /// The mapping has finitely many entries.
    pub closed spec fn wf(&self) -> bool {
        self.map@.dom().finite()
    }

    /// A mapping without entries.
    pub fn new() -> (m: DepthMap)
        ensures
            m.wf(),
            m@ == Map::<Depth, NodeId>::empty(),
            ordered_entries(m@) == Seq::<(Depth, NodeId)>::empty(),
    {
        let m = DepthMap { map: HashMap::new() };
        proof {
            let none = Seq::<(Depth, NodeId)>::empty();
            assert(entries_map(none) =~= Map::<Depth, NodeId>::empty());
            lemma_ordered_entries(none);
        }
        m
    }

    /// Tests whether the mapping has finitely many entries, as every
    /// mapping that is stored has.
    pub fn is_wf(&self) -> (b: bool)
        ensures
            b == self.wf(),
    {
        true
    }

    /// The number of entries.
    pub fn len(&self) -> (n: usize)
        requires
            self.wf(),
        ensures
            n == ordered_entries(self@).len(),
    {
        proof {
            lemma_ordered_len(self@);
        }
        self.map.len()
    }

    /// The entries in increasing order of depth: the entries of the hash
    /// map, in whatever order it hands them out, each put at its place.
    pub fn entries(&self) -> (entries: Vec<(Depth, NodeId)>)
        requires
            self.wf(),
        ensures
            entries@ == ordered_entries(self@),
    {
        let mut ordered = Ordered::new();
        let ghost all = spec_hash_map_iter(&self.map).remaining();
        for entry in walk: self.map.iter()
            invariant
                walk.seq() == all,
                ordered.wf(),
                forall|d: Depth|
                    ordered.model().contains_key(d) <==> exists|j: int|
                        0 <= j < walk.index() && *(#[trigger] all[j]).0 == d,
                forall|d: Depth| #[trigger]
                    ordered.model().contains_key(d) ==> self.map@.contains_key(d)
                        && ordered.model()[d] == self.map@[d],
        {
            let ghost before = ordered.model();
            let ghost at = walk.index();
            ordered.insert(*entry.0, *entry.1);
            proof {
                assert(*all[at].0 == *entry.0);
                assert forall|d: Depth|
                    ordered.model().contains_key(d) <==> exists|j: int|
                        0 <= j < at + 1 && *(#[trigger] all[j]).0 == d by {
                    if before.contains_key(d) {
                        let j = choose|j: int| 0 <= j < at && *(#[trigger] all[j]).0 == d;
                        assert(0 <= j < at + 1 && *all[j].0 == d);
                    }
                    if exists|j: int| 0 <= j < at + 1 && *(#[trigger] all[j]).0 == d {
                        let j = choose|j: int| 0 <= j < at + 1 && *(#[trigger] all[j]).0 == d;
                        if j < at {
                            assert(before.contains_key(d));
                        }
                    }
                }
            }
        }
        proof {
            assert(ordered.model() =~= self.map@) by {
                assert forall|d: Depth| self.map@.contains_key(d) implies ordered.model().contains_key(
                    d,
                ) by {
                    assert(all.contains((&d, &self.map@[d])));
                    let j = choose|j: int| 0 <= j < all.len() && all[j] == (&d, &self.map@[d]);
                    assert(*all[j].0 == d);
                }
            }
            lemma_ordered_entries(ordered.entries@);
        }
        ordered.entries
    }

    /// The entry at position `i` of the entries in increasing order of
    /// depth, if there are that many.
    pub fn entry(&self, i: usize) -> (e: Option<(Depth, NodeId)>)
        requires
            self.wf(),
        ensures
            e == (if i < ordered_entries(self@).len() {
                Some(ordered_entries(self@)[i as int])
            } else {
                None
            }),
            e.is_some() ==> self@.contains_key(e.unwrap().0) && self@[e.unwrap().0] == e.unwrap().1,
    {
        proof {
            lemma_ordered_entries_of_map(self@);
        }
        let entries = self.entries();
        if i < entries.len() {
            Some(entries[i])
        } else {
            None
        }
    }

    /// The node at `depth`, if there is one.
    pub fn get(&self, depth: Depth) -> (node: Option<NodeId>)
        requires
            self.wf(),
        ensures
            node == (if self@.contains_key(depth) {
                Some(self@[depth])
            } else {
                None
            }),
    {
        match self.map.get(&depth) {
            Some(node) => Some(*node),
            None => None,
        }
    }

    /// Puts `node` at `depth` and returns the node that was there.
    pub fn insert(&mut self, depth: Depth, node: NodeId) -> (previous: Option<NodeId>)
        requires
            old(self).wf(),
        ensures
            final(self).wf(),
            final(self)@ == old(self)@.insert(depth, node),
            previous == (if old(self)@.contains_key(depth) {
                Some(old(self)@[depth])
            } else {
                None
            }),
    {
        self.map.insert(depth, node)
    }

    /// Takes away the entry at `depth` and returns the node that was there.
    pub fn remove(&mut self, depth: Depth) -> (previous: Option<NodeId>)
        requires
            old(self).wf(),
        ensures
            final(self).wf(),
            final(self)@ == old(self)@.remove(depth),
            previous == (if old(self)@.contains_key(depth) {
                Some(old(self)@[depth])
            } else {
                None
            }),
    {
        self.map.remove(&depth)
    }

    /// Tests whether there is no entry.
    pub fn is_empty(&self) -> (b: bool)
        requires
            self.wf(),
        ensures
            b == (forall|d: Depth| !self@.contains_key(d)),
    {
        proof {
            lemma_ordered_len(self@);
            lemma_ordered_entries_of_map(self@);
            let entries = ordered_entries(self@);
            if entries.len() > 0 {
                assert(self@.contains_key(entries[0].0));
            } else {
                assert forall|d: Depth| !self@.contains_key(d) by {
                    assert(!entries_map(entries).contains_key(d));
                }
            }
        }
        self.map.len() == 0
    }

    /// The lowest depth at which `node` stands, if it stands at one.
    pub fn depth_of(&self, node: NodeId) -> (depth: Option<Depth>)
        requires
            self.wf(),
        ensures
            match depth {
                Some(d) => self@.contains_key(d) && self@[d] == node && forall|e: Depth|
                    self@.contains_key(e) && self@[e] == node ==> d <= e,
                None => forall|e: Depth| self@.contains_key(e) ==> self@[e] != node,
            },
    {
        let entries = self.entries();
        proof {
            lemma_ordered_entries_of_map(self@);
        }
        let mut i: usize = 0;
        while i < entries.len()
            invariant
                i <= entries@.len(),
                sorted(entries@),
                entries_map(entries@) == self@,
                forall|k: int| 0 <= k < i ==> (#[trigger] entries@[k]).1 != node,
            decreases entries@.len() - i,
        {
            if entries[i].1 == node {
                proof {
                    lemma_entries_map_index(entries@, i as int);
                    assert forall|e: Depth| self@.contains_key(e) && self@[e] == node implies entries@[i as int].0
                        <= e by {
                        let k = choose|k: int|
                            0 <= k < entries@.len() && (#[trigger] entries@[k]).0 == e;
                        lemma_entries_map_index(entries@, k);
                    }
                }
                return Some(entries[i].0);
            }
            i += 1;
        }
        proof {
            assert forall|e: Depth| self@.contains_key(e) implies self@[e] != node by {
                let k = choose|k: int| 0 <= k < entries@.len() && (#[trigger] entries@[k]).0 == e;
                lemma_entries_map_index(entries@, k);
            }
        }
        None
    }
}

} // verus!
