//! The spatial index the pair finder reads: stored (node identity, bound) entries, a
//! mapping from node identity to value index, and discrete-overlap queries.
use vstd::prelude::*;
use crate::bound::Bound;

verus! {

/// Whether a query with bound `q` against `idx` reports value index `v`: some stored
/// entry resolves to `v` and its bound overlaps `q` (what `query_for_indices` promises).
pub open spec fn query_hits<B: Bound, I: SpatialIndex<B>>(idx: &I, q: &B, v: usize) -> bool {
    exists|k: int|
        0 <= k < idx.spec_entries().len() && idx.spec_value_index(#[trigger] idx.spec_entries()[k].0)
            == Some(v) && q.spec_intersects(&idx.spec_entries()[k].1)
}

/// A spatial index over bounds of type `B`.
pub trait SpatialIndex<B: Bound> {
    /// The stored entries, as (node identity, bound), in the index's insertion order.
    spec fn spec_entries(&self) -> Seq<(usize, B)>;

    /// The value index a node identity resolves to, if any.
    spec fn spec_value_index(&self, node: usize) -> Option<usize>;

    /// The number of stored entries.
    fn len(&self) -> (r: usize)
        ensures
            r == self.spec_entries().len(),
    ;

    /// The node identity of the `k`-th stored entry.
    fn entry_node(&self, k: usize) -> (r: usize)
        requires
            k < self.spec_entries().len(),
        ensures
            r == self.spec_entries()[k as int].0,
    ;

    /// The bound of the `k`-th stored entry.
    fn entry_bound(&self, k: usize) -> (r: &B)
        requires
            k < self.spec_entries().len(),
        ensures
            *r == self.spec_entries()[k as int].1,
    ;

    /// Resolves a node identity to its value index.
    fn value_index(&self, node: usize) -> (r: Option<usize>)
        ensures
            r == self.spec_value_index(node),
    ;

    /// The value indices of all stored entries whose bound overlaps `bound`; an index
    /// may be reported more than once.
    fn query_for_indices(&self, bound: &B) -> (r: Vec<usize>)
        ensures
            forall|v: usize|
                #[trigger] r@.contains(v) <==> exists|k: int|
                    0 <= k < self.spec_entries().len() && self.spec_value_index(
                        #[trigger] self.spec_entries()[k].0,
                    ) == Some(v) && bound.spec_intersects(&self.spec_entries()[k].1),
    ;
}

/// A spatial index that keeps its entries in a flat list and answers a query by testing
/// every entry.
pub struct FlatIndex<B> {
    entries: Vec<(usize, B)>,
    value_indices: Vec<Option<usize>>,
}

impl<B: Bound> FlatIndex<B> {
    /// How many node identities the index has handed out or been given.
    pub closed spec fn spec_node_count(&self) -> nat {
        self.value_indices@.len()
    }

    /// An index with no entries.
    pub fn new() -> (r: Self)
        ensures
            r.spec_entries().len() == 0,
            r.spec_node_count() == 0,
            forall|node: usize| r.spec_value_index(node) is None,
    {
        FlatIndex { entries: Vec::new(), value_indices: Vec::new() }
    }

    /// An index built from its stored entries, as (node identity, bound), and from the
    /// value index of each node identity (`value_indices[node]`; a node identity past
    /// its end resolves to nothing).
    pub fn from_parts(entries: Vec<(usize, B)>, value_indices: Vec<Option<usize>>) -> (r: Self)
        ensures
            r.spec_entries() == entries@,
            r.spec_node_count() == value_indices@.len(),
            forall|node: usize|
                #[trigger] r.spec_value_index(node) == if node < value_indices@.len() {
                    value_indices@[node as int]
                } else {
                    None
                },
    {
        FlatIndex { entries, value_indices }
    }

    /// Stores `bound` under a fresh node identity and returns its value index, which is
    /// its position among the stored entries.
    pub fn insert(&mut self, bound: B) -> (r: usize)
        ensures
            r == old(self).spec_entries().len(),
            final(self).spec_entries() == old(self).spec_entries().push(
                (old(self).spec_node_count() as usize, bound),
            ),
            final(self).spec_node_count() == old(self).spec_node_count() + 1,
            final(self).spec_value_index(old(self).spec_node_count() as usize) == Some(r),
            forall|node: usize|
                node != old(self).spec_node_count() ==> #[trigger] final(self).spec_value_index(
                    node,
                ) == old(self).spec_value_index(node),
    {
        let node = self.value_indices.len();
        let value = self.entries.len();
        self.entries.push((node, bound));
        self.value_indices.push(Some(value));
        value
    }
}

impl<B: Bound> SpatialIndex<B> for FlatIndex<B> {
    closed spec fn spec_entries(&self) -> Seq<(usize, B)> {
        self.entries@
    }

    closed spec fn spec_value_index(&self, node: usize) -> Option<usize> {
        if node < self.value_indices@.len() {
            self.value_indices@[node as int]
        } else {
            None
        }
    }

    fn len(&self) -> (r: usize) {
        self.entries.len()
    }

    fn entry_node(&self, k: usize) -> (r: usize) {
        self.entries[k].0
    }

    fn entry_bound(&self, k: usize) -> (r: &B) {
        &self.entries[k].1
    }

    fn value_index(&self, node: usize) -> (r: Option<usize>) {
        if node < self.value_indices.len() {
            self.value_indices[node]
        } else {
            None
        }
    }

    fn query_for_indices(&self, bound: &B) -> (r: Vec<usize>) {
        let mut hits: Vec<usize> = Vec::new();
        let n = self.entries.len();
        for k in 0..n
            invariant
                n == self.entries@.len(),
                forall|v: usize|
                    #[trigger] hits@.contains(v) <==> exists|j: int|
                        0 <= j < k && self.spec_value_index(#[trigger] self.entries@[j].0)
                            == Some(v) && bound.spec_intersects(&self.entries@[j].1),
        {
            let node = self.entries[k].0;
            let resolved = self.value_index(node);
            let ghost before = hits@;
            match resolved {
                Some(v) => {
                    if bound.intersects(&self.entries[k].1) {
                        hits.push(v);
                    }
                },
                None => {},
            }
            assert forall|w: usize| #[trigger]
                hits@.contains(w) <==> exists|j: int|
                    0 <= j < k + 1 && self.spec_value_index(#[trigger] self.entries@[j].0)
                        == Some(w) && bound.spec_intersects(&self.entries@[j].1) by {
                if hits@.contains(w) && !before.contains(w) {
                    assert(hits@ == before.push(w) || hits@ == before);
                    assert(hits@[before.len() as int] == w);
                    assert(self.entries@[k as int].0 == node);
                }
                if exists|j: int|
                    0 <= j < k + 1 && self.spec_value_index(#[trigger] self.entries@[j].0)
                        == Some(w) && bound.spec_intersects(&self.entries@[j].1) {
                    let j = choose|j: int|
                        0 <= j < k + 1 && self.spec_value_index(#[trigger] self.entries@[j].0)
                            == Some(w) && bound.spec_intersects(&self.entries@[j].1);
                    if j == k {
                        assert(hits@[hits@.len() - 1] == w);
                    } else {
                        assert(before.contains(w));
                        let i = choose|i: int| 0 <= i < before.len() && before[i] == w;
                        assert(hits@[i] == w);
                    }
                }
            }
        }
        hits
    }
}

} // verus!
