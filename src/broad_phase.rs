//! The broad-phase pair finder: candidate pairs of overlapping entries, restricted to
//! entries flagged dirty.
use vstd::prelude::*;
use crate::bound::Bound;
use crate::index::{query_hits, SpatialIndex};
use crate::pairs::{insert_pair, lemma_sorted_same_pairs_equal, pair_lt, strictly_sorted};

verus! {

/// Why a pass could not be made.
#[derive(Clone, Copy, Debug, PartialEq, Eq, Structural)]
pub enum BroadPhaseError {
    /// A stored node identity does not resolve to a value index: the index is corrupt.
    CorruptIndex,
    /// A stored entry's value index has no flag in the dirty list.
    DirtyTooShort,
}

/// The value index that the `k`-th stored entry resolves to.
pub open spec fn entry_value<B: Bound, I: SpatialIndex<B>>(idx: &I, k: int) -> Option<usize> {
    idx.spec_value_index(idx.spec_entries()[k].0)
}

/// Every stored node identity resolves to a value index.
pub open spec fn all_resolve<B: Bound, I: SpatialIndex<B>>(idx: &I) -> bool {
    forall|k: int| 0 <= k < idx.spec_entries().len() ==> (#[trigger] entry_value(idx, k)) is Some
}

/// Every stored entry's value index has a flag in `dirty`.
pub open spec fn dirty_covers<B: Bound, I: SpatialIndex<B>>(idx: &I, dirty: Seq<bool>) -> bool {
    forall|k: int|
        0 <= k < idx.spec_entries().len() ==> (#[trigger] entry_value(idx, k)) is Some
            && entry_value(idx, k)->0 < dirty.len()
}

/// The two indices in ascending order.
pub open spec fn canonical(d: usize, e: usize) -> (usize, usize) {
    if d < e {
        (d, e)
    } else {
        (e, d)
    }
}

/// The `k`-th stored entry is dirty, and querying the index with its bound reports some
/// other value index `e` such that `p` is the two indices in ascending order.
pub open spec fn entry_discovers<B: Bound, I: SpatialIndex<B>>(
    idx: &I,
    dirty: Seq<bool>,
    k: int,
    p: (usize, usize),
) -> bool {
    match entry_value(idx, k) {
        Some(d) => dirty[d as int] && exists|e: usize|
            e != d && #[trigger] query_hits(idx, &idx.spec_entries()[k].1, e) && p == canonical(
                d,
                e,
            ),
        None => false,
    }
}

/// `p` is a candidate pair: some dirty stored entry discovers it.
pub open spec fn is_candidate<B: Bound, I: SpatialIndex<B>>(
    idx: &I,
    dirty: Seq<bool>,
    p: (usize, usize),
) -> bool {
    exists|k: int| 0 <= k < idx.spec_entries().len() && #[trigger] entry_discovers(idx, dirty, k, p)
}

/// `out` lists every candidate pair once, in ascending order, and nothing else.
pub open spec fn is_pair_output<B: Bound, I: SpatialIndex<B>>(
    idx: &I,
    dirty: Seq<bool>,
    out: Seq<(usize, usize)>,
) -> bool {
    &&& strictly_sorted(out)
    &&& forall|p: (usize, usize)| #[trigger] out.contains(p) <==> is_candidate(idx, dirty, p)
}

/// What a pass over `idx` with the flags `dirty` comes to: the corruption error when
/// some node identity does not resolve, else the short-flags error when some value
/// index has no flag, else the candidate pairs.
pub open spec fn pairs_outcome<B: Bound, I: SpatialIndex<B>>(
    idx: &I,
    dirty: Seq<bool>,
    r: Result<Seq<(usize, usize)>, BroadPhaseError>,
) -> bool {
    match r {
        Err(BroadPhaseError::CorruptIndex) => !all_resolve(idx),
        Err(BroadPhaseError::DirtyTooShort) => all_resolve(idx) && !dirty_covers(idx, dirty),
        Ok(out) => dirty_covers(idx, dirty) && is_pair_output(idx, dirty, out),
    }
}

/// Broad-phase collision detection against a spatial index.
pub struct DbvtBroadPhase;

impl DbvtBroadPhase {
    /// A pair finder; it holds no state.
    pub fn new() -> (r: Self) {
        DbvtBroadPhase
    }

    /// Finds the candidate pairs among the entries of `tree`, querying only with the
    /// entries flagged in `dirty` (indexed by value index).
    ///
    /// The pairs are `(low, high)` value indices with `low < high`, each listed once, in
    /// ascending order. A node identity that does not resolve gives
    /// `BroadPhaseError::CorruptIndex`; a value index past the end of `dirty` gives
    /// `BroadPhaseError::DirtyTooShort`. No partial result is returned.
    pub fn find_collider_pairs<B: Bound, I: SpatialIndex<B>>(&self, tree: &I, dirty: &[bool]) -> (r:
        Result<Vec<(usize, usize)>, BroadPhaseError>)
        ensures
            pairs_outcome(
                tree,
                dirty@,
                (match r {
                    Ok(v) => Ok(v@),
                    Err(e) => Err(e),
                }),
            ),
            r is Ok <==> dirty_covers(tree, dirty@),
            r matches Ok(out) ==> strictly_sorted(out@),
            r matches Ok(out) ==> forall|i: int| 0 <= i < out@.len() ==> out@[i].0 < out@[i].1,
    {
        let n = tree.len();
        // Resolve every stored entry before any query, so that a corrupt index or a
        // short flag list yields no partial result.
        let mut short = false;
        for k in 0..n
            invariant
                n == tree.spec_entries().len(),
                forall|j: int| 0 <= j < k ==> (#[trigger] entry_value(tree, j)) is Some,
                short <==> exists|j: int|
                    0 <= j < k && entry_value(tree, j)->0 >= dirty@.len() && #[trigger] entry_value(
                        tree,
                        j,
                    ) is Some,
        {
            match tree.value_index(tree.entry_node(k)) {
                None => {
                    assert(entry_value(tree, k as int) is None);
                    return Err(BroadPhaseError::CorruptIndex);
                },
                Some(v) => {
                    if v >= dirty.len() {
                        short = true;
                    }
                },
            }
        }
        if short {
            return Err(BroadPhaseError::DirtyTooShort);
        }
        let mut potentials: Vec<(usize, usize)> = Vec::new();
        for k in 0..n
            invariant
                n == tree.spec_entries().len(),
                dirty_covers(tree, dirty@),
                strictly_sorted(potentials@),
                forall|p: (usize, usize)| #[trigger]
                    potentials@.contains(p) <==> exists|j: int|
                        0 <= j < k && #[trigger] entry_discovers(tree, dirty@, j, p),
        {
            assert(entry_value(tree, k as int) is Some);
            let v = match tree.value_index(tree.entry_node(k)) {
                Some(v) => v,
                // Ruled out by the first pass.
                None => {
                    return Err(BroadPhaseError::CorruptIndex);
                },
            };
            let ghost before = potentials@;
            if dirty[v] {
                let hits = tree.query_for_indices(tree.entry_bound(k));
                let ghost bound_k = tree.spec_entries()[k as int].1;
                for i in 0..hits.len()
                    invariant
                        strictly_sorted(potentials@),
                        forall|p: (usize, usize)| #[trigger]
                            potentials@.contains(p) <==> (before.contains(p) || exists|h: int|
                                0 <= h < i && hits@[h] != v && p == canonical(
                                    v,
                                    #[trigger] hits@[h],
                                )),
                {
                    let h = hits[i];
                    if h != v {
                        let pair = if v < h {
                            (v, h)
                        } else {
                            (h, v)
                        };
                        insert_pair(&mut potentials, pair);
                    }
                }
                assert forall|p: (usize, usize)|
                    entry_discovers(tree, dirty@, k as int, p) <==> exists|h: int|
                        0 <= h < hits@.len() && hits@[h] != v && p == canonical(
                            v,
                            #[trigger] hits@[h],
                        ) by {
                    if entry_discovers(tree, dirty@, k as int, p) {
                        let e = choose|e: usize|
                            e != v && #[trigger] query_hits(tree, &bound_k, e) && p == canonical(
                                v,
                                e,
                            );
                        assert(hits@.contains(e));
                    }
                    if exists|h: int|
                        0 <= h < hits@.len() && hits@[h] != v && p == canonical(
                            v,
                            #[trigger] hits@[h],
                        ) {
                        let h = choose|h: int|
                            0 <= h < hits@.len() && hits@[h] != v && p == canonical(
                                v,
                                #[trigger] hits@[h],
                            );
                        assert(hits@.contains(hits@[h]));
                        assert(query_hits(tree, &bound_k, hits@[h]));
                    }
                }
            } else {
                assert forall|p: (usize, usize)| !entry_discovers(tree, dirty@, k as int, p) by {}
            }
            assert forall|p: (usize, usize)| #[trigger]
                potentials@.contains(p) <==> exists|j: int|
                    0 <= j < k + 1 && #[trigger] entry_discovers(tree, dirty@, j, p) by {
                if entry_discovers(tree, dirty@, k as int, p) {
                    assert(potentials@.contains(p));
                }
            }
        }
        assert forall|p: (usize, usize)| #[trigger]
            potentials@.contains(p) implies p.0 < p.1 by {
            let j = choose|j: int| 0 <= j < n && #[trigger] entry_discovers(tree, dirty@, j, p);
        }
        assert forall|i: int| 0 <= i < potentials@.len() implies potentials@[i].0
            < potentials@[i].1 by {
            assert(potentials@.contains(potentials@[i]));
        }
        Ok(potentials)
    }
}

/// A pass is determined by the index and the flags: two passes over the same index
/// with the same flags give the same result.
pub proof fn lemma_pairs_outcome_deterministic<B: Bound, I: SpatialIndex<B>>(
    tree: &I,
    dirty: Seq<bool>,
    r1: Result<Seq<(usize, usize)>, BroadPhaseError>,
    r2: Result<Seq<(usize, usize)>, BroadPhaseError>,
)
    requires
        pairs_outcome(tree, dirty, r1),
        pairs_outcome(tree, dirty, r2),
    ensures
        r1 == r2,
{
    if let (Ok(a), Ok(b)) = (r1, r2) {
        lemma_sorted_same_pairs_equal(a, b);
    }
}

/// Completeness: when dirty entry `d` overlaps entry `e != d`, the pair of the two value
/// indices in ascending order is listed exactly once.
pub proof fn lemma_dirty_overlap_listed_once<B: Bound, I: SpatialIndex<B>>(
    tree: &I,
    dirty: Seq<bool>,
    out: Seq<(usize, usize)>,
    kd: int,
    ke: int,
)
    requires
        pairs_outcome(tree, dirty, Ok(out)),
        0 <= kd < tree.spec_entries().len(),
        0 <= ke < tree.spec_entries().len(),
        entry_value(tree, kd) is Some,
        entry_value(tree, ke) is Some,
        entry_value(tree, kd)->0 != entry_value(tree, ke)->0,
        dirty[entry_value(tree, kd)->0 as int],
        tree.spec_entries()[kd].1.spec_intersects(&tree.spec_entries()[ke].1),
    ensures
        ({
            let p = canonical(entry_value(tree, kd)->0, entry_value(tree, ke)->0);
            exists|i: int|
                0 <= i < out.len() && out[i] == p && forall|j: int|
                    0 <= j < out.len() && #[trigger] out[j] == p ==> j == i
        }),
{
    let d = entry_value(tree, kd)->0;
    let e = entry_value(tree, ke)->0;
    let p = canonical(d, e);
    assert(tree.spec_value_index(tree.spec_entries()[ke].0) == Some(e));
    assert(query_hits(tree, &tree.spec_entries()[kd].1, e));
    assert(entry_discovers(tree, dirty, kd, p));
    assert(out.contains(p));
    let i = choose|i: int| 0 <= i < out.len() && out[i] == p;
    assert forall|j: int| 0 <= j < out.len() && #[trigger] out[j] == p implies j == i by {
        if j < i {
            assert(pair_lt(out[j], out[i]));
        } else if j > i {
            assert(pair_lt(out[i], out[j]));
        }
    }
}

/// Dirty gating: with no entry flagged dirty, a pass lists no pair, however the bounds
/// overlap.
pub proof fn lemma_clean_flags_give_no_pairs<B: Bound, I: SpatialIndex<B>>(
    tree: &I,
    dirty: Seq<bool>,
    out: Seq<(usize, usize)>,
)
    requires
        pairs_outcome(tree, dirty, Ok(out)),
        forall|i: int| 0 <= i < dirty.len() ==> !dirty[i],
    ensures
        out.len() == 0,
{
    if out.len() > 0 {
        assert(out.contains(out[0]));
        let k = choose|k: int|
            0 <= k < tree.spec_entries().len() && #[trigger] entry_discovers(tree, dirty, k, out[0]);
        assert(entry_value(tree, k) is Some);
    }
}

} // verus!
