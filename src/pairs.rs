//! Ascending, duplicate-free lists of index pairs, kept sorted by binary search and
//! positional insertion.
use vstd::prelude::*;

verus! {

/// Lexicographic order on index pairs: by the first index, then by the second.
pub open spec fn pair_lt(p: (usize, usize), q: (usize, usize)) -> bool {
    p.0 < q.0 || (p.0 == q.0 && p.1 < q.1)
}

/// Every pair of the list comes strictly before every later one, so the list is
/// ascending and holds no pair twice.
pub open spec fn strictly_sorted(s: Seq<(usize, usize)>) -> bool {
    forall|i: int, j: int| 0 <= i < j < s.len() ==> #[trigger] pair_lt(s[i], s[j])
}

fn pair_less(p: (usize, usize), q: (usize, usize)) -> (r: bool)
    ensures
        r == pair_lt(p, q),
{
    p.0 < q.0 || (p.0 == q.0 && p.1 < q.1)
}

/// Looks `p` up in a strictly sorted list: `Ok` with its position when it is there,
/// otherwise `Err` with the position at which inserting it keeps the list sorted.
pub fn search_pair(v: &Vec<(usize, usize)>, p: (usize, usize)) -> (r: Result<usize, usize>)
    requires
        strictly_sorted(v@),
    ensures
        match r {
            Ok(i) => i < v@.len() && v@[i as int] == p,
            Err(i) => {
                &&& i <= v@.len()
                &&& !v@.contains(p)
                &&& forall|j: int| 0 <= j < i ==> pair_lt(#[trigger] v@[j], p)
                &&& forall|j: int| i <= j < v@.len() ==> pair_lt(p, #[trigger] v@[j])
            },
        },
{
    let mut lo: usize = 0;
    let mut hi: usize = v.len();
    while lo < hi
        invariant
            strictly_sorted(v@),
            lo <= hi <= v@.len(),
            forall|j: int| 0 <= j < lo ==> pair_lt(#[trigger] v@[j], p),
            forall|j: int| hi <= j < v@.len() ==> pair_lt(p, #[trigger] v@[j]),
        decreases hi - lo,
    {
        let mid: usize = lo + (hi - lo) / 2;
        let q = v[mid];
        if q.0 == p.0 && q.1 == p.1 {
            return Ok(mid);
        }
        if pair_less(q, p) {
            assert forall|j: int| 0 <= j < mid + 1 implies pair_lt(#[trigger] v@[j], p) by {
                if j < mid {
                    assert(pair_lt(v@[j], v@[mid as int]));
                }
            }
            lo = mid + 1;
        } else {
            assert forall|j: int| mid <= j < v@.len() implies pair_lt(p, #[trigger] v@[j]) by {
                if j > mid {
                    assert(pair_lt(v@[mid as int], v@[j]));
                }
            }
            hi = mid;
        }
    }
    assert(!v@.contains(p)) by {
        if v@.contains(p) {
            let k = choose|k: int| 0 <= k < v@.len() && v@[k] == p;
            assert(pair_lt(v@[k], p) || pair_lt(p, v@[k]));
        }
    }
    Err(lo)
}

/// Adds `p` to a strictly sorted list at its sorted position, unless it is already
/// there.
pub fn insert_pair(v: &mut Vec<(usize, usize)>, p: (usize, usize))
    requires
        strictly_sorted(old(v)@),
    ensures
        strictly_sorted(final(v)@),
        forall|q: (usize, usize)| #[trigger]
            final(v)@.contains(q) <==> (old(v)@.contains(q) || q == p),
{
    match search_pair(v, p) {
        Ok(_) => {},
        Err(pos) => {
            let ghost before = v@;
            v.insert(pos, p);
            assert(v@ == before.insert(pos as int, p));
            assert forall|i: int, j: int| 0 <= i < j < v@.len() implies #[trigger] pair_lt(
                v@[i],
                v@[j],
            ) by {
                if j < pos {
                    assert(pair_lt(before[i], before[j]));
                } else if j == pos {
                    assert(pair_lt(before[i], p));
                } else if i < pos {
                    assert(pair_lt(before[i], p));
                    assert(pair_lt(p, before[j - 1]));
                } else if i == pos {
                    assert(pair_lt(p, before[j - 1]));
                } else {
                    assert(pair_lt(before[i - 1], before[j - 1]));
                }
            }
            assert forall|q: (usize, usize)| #[trigger]
                v@.contains(q) <==> (before.contains(q) || q == p) by {
                if v@.contains(q) {
                    let k = choose|k: int| 0 <= k < v@.len() && v@[k] == q;
                    if k < pos {
                        assert(before[k] == q);
                    } else if k > pos {
                        assert(before[k - 1] == q);
                    }
                }
                if before.contains(q) {
                    let k = choose|k: int| 0 <= k < before.len() && before[k] == q;
                    if k < pos {
                        assert(v@[k] == q);
                    } else {
                        assert(v@[k + 1] == q);
                    }
                }
                if q == p {
                    assert(v@[pos as int] == q);
                }
            }
        },
    }
}

/// Two strictly sorted lists that hold the same pairs are the same list.
pub proof fn lemma_sorted_same_pairs_equal(a: Seq<(usize, usize)>, b: Seq<(usize, usize)>)
    requires
        strictly_sorted(a),
        strictly_sorted(b),
        forall|p: (usize, usize)| a.contains(p) <==> b.contains(p),
    ensures
        a == b,
    decreases a.len(),
{
    if a.len() == 0 {
        if b.len() > 0 {
            assert(b.contains(b[0]));
        }
        assert(a =~= b);
    } else {
        assert(a.contains(a[0]));
        assert(b.contains(a[0]));
        let j = choose|j: int| 0 <= j < b.len() && b[j] == a[0];
        assert(b.contains(b[0]));
        assert(a.contains(b[0]));
        let i = choose|i: int| 0 <= i < a.len() && a[i] == b[0];
        if j > 0 {
            assert(pair_lt(b[0], b[j]));
            if i > 0 {
                assert(pair_lt(a[0], a[i]));
            }
        }
        assert(a[0] == b[0]);
        let a1 = a.drop_first();
        let b1 = b.drop_first();
        assert forall|p: (usize, usize)| a1.contains(p) <==> b1.contains(p) by {
            if a1.contains(p) {
                let k = choose|k: int| 0 <= k < a1.len() && a1[k] == p;
                assert(pair_lt(a[0], a[k + 1]));
                assert(a.contains(p));
                let m = choose|m: int| 0 <= m < b.len() && b[m] == p;
                assert(m != 0);
                assert(b1[m - 1] == p);
            }
            if b1.contains(p) {
                let k = choose|k: int| 0 <= k < b1.len() && b1[k] == p;
                assert(pair_lt(b[0], b[k + 1]));
                assert(b.contains(p));
                let m = choose|m: int| 0 <= m < a.len() && a[m] == p;
                assert(m != 0);
                assert(a1[m - 1] == p);
            }
        }
        lemma_sorted_same_pairs_equal(a1, b1);
        assert(a =~= b) by {
            assert forall|k: int| 0 <= k < a.len() implies a[k] == b[k] by {
                if k > 0 {
                    assert(a[k] == a1[k - 1]);
                    assert(b[k] == b1[k - 1]);
                }
            }
        }
    }
}

} // verus!
