//! Sets of index pairs, held in ascending order.

use vstd::prelude::*;

verus! {

/// A pair of interface indexes: the higher layer first, then the lower one.
pub type Pair = (u32, u32);

/// The order of pairs: by the first index, then by the second.
pub open spec fn pair_lt(a: Pair, b: Pair) -> bool {
    a.0 < b.0 || (a.0 == b.0 && a.1 < b.1)
}

/// Whether every pair stands before the ones that follow it, so that none
/// occurs twice.
pub open spec fn ascending(pairs: Seq<Pair>) -> bool {
    forall|i: int, j: int|
        #![trigger pairs[i], pairs[j]]
        0 <= i < j < pairs.len() ==> pair_lt(pairs[i], pairs[j])
}

/// The number of pairs before `pair` in an ascending list.
pub fn lower_bound(pairs: &Vec<Pair>, pair: Pair) -> (position: usize)
    requires
        ascending(pairs@),
    ensures
        position <= pairs@.len(),
        forall|i: int| 0 <= i < position ==> pair_lt(pairs@[i], pair),
        forall|i: int| position <= i < pairs@.len() ==> !pair_lt(pairs@[i], pair),
{
    let mut low: usize = 0;
    let mut high: usize = pairs.len();
    while low < high
        invariant
            low <= high <= pairs@.len(),
            ascending(pairs@),
            forall|i: int| 0 <= i < low ==> pair_lt(pairs@[i], pair),
            forall|i: int| high <= i < pairs@.len() ==> !pair_lt(pairs@[i], pair),
        decreases high - low,
    {
        let middle: usize = low + (high - low) / 2;
        let at: Pair = pairs[middle];
        if at.0 < pair.0 || (at.0 == pair.0 && at.1 < pair.1) {
            low = middle + 1;
        } else {
            high = middle;
        }
    }
    low
}

/// Adds a pair to an ascending list, unless it is there already.
pub fn insert_pair(pairs: &mut Vec<Pair>, pair: Pair)
    requires
        ascending(old(pairs)@),
    ensures
        ascending(final(pairs)@),
        final(pairs)@.to_set() == old(pairs)@.to_set().insert(pair),
{
    let ghost before = pairs@;
    let position: usize = lower_bound(pairs, pair);
    if position < pairs.len() && pairs[position].0 == pair.0 && pairs[position].1 == pair.1 {
        assert(before[position as int] == pair);
        assert(before.to_set().contains(pair));
        assert(before.to_set().insert(pair) =~= before.to_set());
    } else {
        pairs.insert(position, pair);
        let ghost after = before.insert(position as int, pair);
        assert(pairs@ == after);
        assert forall|i: int, j: int| 0 <= i < j < after.len() implies pair_lt(
            after[i],
            after[j],
        ) by {
            if j == position {
                assert(after[i] == before[i]);
            } else if i == position {
                assert(after[j] == before[j - 1]);
                assert(!pair_lt(before[j - 1], pair));
                if j - 1 > position {
                    assert(pair_lt(before[position as int], before[j - 1]));
                }
            } else {
                let a = if i < position {
                    i
                } else {
                    i - 1
                };
                let b = if j < position {
                    j
                } else {
                    j - 1
                };
                assert(pair_lt(before[a], before[b]));
            }
        }
        assert(after.to_set() =~= before.to_set().insert(pair)) by {
            assert forall|p: Pair| before.to_set().contains(p) implies after.to_set().contains(
                p,
            ) by {
                let k = choose|k: int| 0 <= k < before.len() && before[k] == p;
                if k < position {
                    assert(after[k] == p);
                } else {
                    assert(after[k + 1] == p);
                }
            }
            assert(after[position as int] == pair);
            assert forall|p: Pair| after.to_set().contains(p) && p
                != pair implies before.to_set().contains(p) by {
                let k = choose|k: int| 0 <= k < after.len() && after[k] == p;
                if k < position {
                    assert(before[k] == p);
                } else {
                    assert(before[k - 1] == p);
                }
            }
        }
    }
}

/// Two ascending lists of the same pairs are the same list.
pub proof fn ascending_lists_of_the_same_pairs_are_equal(a: Seq<Pair>, b: Seq<Pair>)
    requires
        ascending(a),
        ascending(b),
        a.to_set() == b.to_set(),
    ensures
        a == b,
    decreases a.len(),
{
    if a.len() == 0 {
        if b.len() > 0 {
            assert(b.to_set().contains(b[0]));
            assert(a.to_set().contains(b[0]));
        }
        assert(a =~= b);
    } else {
        assert(a.to_set().contains(a.last()));
        assert(b.to_set().contains(a.last()));
        assert(b.len() > 0);
        assert(b.to_set().contains(b.last()));
        assert(a.to_set().contains(b.last()));
        let i = choose|i: int| 0 <= i < b.len() && b[i] == a.last();
        let j = choose|j: int| 0 <= j < a.len() && a[j] == b.last();
        assert(a.last() == b.last()) by {
            if i < b.len() - 1 {
                assert(pair_lt(b[i], b.last()));
                if j < a.len() - 1 {
                    assert(pair_lt(a[j], a.last()));
                }
            }
        }
        let c = a.drop_last();
        let d = b.drop_last();
        assert forall|p: Pair| c.to_set().contains(p) implies d.to_set().contains(p) by {
            let k = choose|k: int| 0 <= k < c.len() && c[k] == p;
            assert(a[k] == p);
            assert(pair_lt(a[k], a.last()));
            assert(a.to_set().contains(p));
            assert(b.to_set().contains(p));
            let m = choose|m: int| 0 <= m < b.len() && b[m] == p;
            assert(m != b.len() - 1);
            assert(d[m] == p);
        }
        assert forall|p: Pair| d.to_set().contains(p) implies c.to_set().contains(p) by {
            let k = choose|k: int| 0 <= k < d.len() && d[k] == p;
            assert(b[k] == p);
            assert(pair_lt(b[k], b.last()));
            assert(b.to_set().contains(p));
            assert(a.to_set().contains(p));
            let m = choose|m: int| 0 <= m < a.len() && a[m] == p;
            assert(m != a.len() - 1);
            assert(c[m] == p);
        }
        assert(c.to_set() =~= d.to_set());
        ascending_lists_of_the_same_pairs_are_equal(c, d);
        assert(a =~= c.push(a.last()));
        assert(b =~= d.push(b.last()));
    }
}

} // verus!
