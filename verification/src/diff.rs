//! Deltas between two snapshots.
//!
//! A delta is stated for every name that both snapshots hold; a name that one
//! of them lacks has none. Where a counter went down between the two, its
//! delta is zero: a counter that was reset has counted nothing that can be
//! told.

use vstd::prelude::*;
use crate::snapshot::CounterSnapshot;

verus! {

/// The deltas between two snapshots, by name.
pub type DiffSnapshot = CounterSnapshot;

/// How far a counter went up from `prev` to `curr`; zero where it went down.
pub open spec fn delta(prev: u128, curr: u128) -> u128 {
    if curr >= prev {
        (curr - prev) as u128
    } else {
        0
    }
}

/// The deltas from `prev` to `curr`: one for each name that both hold.
pub open spec fn diff_map(prev: Map<Seq<char>, u128>, curr: Map<Seq<char>, u128>) -> Map<
    Seq<char>,
    u128,
> {
    Map::new(
        |k: Seq<char>| curr.dom().contains(k) && prev.dom().contains(k),
        |k: Seq<char>| delta(prev[k], curr[k]),
    )
}

/// `later` holds the names of `earlier`, and no counter is lower in it.
pub open spec fn follows(earlier: Map<Seq<char>, u128>, later: Map<Seq<char>, u128>) -> bool {
    &&& earlier.dom() == later.dom()
    &&& forall|k: Seq<char>| #[trigger] earlier.dom().contains(k) ==> earlier[k] <= later[k]
}

/// The deltas from `prev` to `curr`.
///
/// The result holds the names that both snapshots hold, each with the amount
/// by which its counter went up, or zero where it went down.
pub fn calculate_diffs(prev: &CounterSnapshot, curr: &CounterSnapshot) -> (r: DiffSnapshot)
    ensures
        r@ == diff_map(prev@, curr@),
{
    let mut r = CounterSnapshot::new();
    let mut i: usize = 0;
    proof {
        use_type_invariant(curr);
    }
    while i < curr.len()
        invariant
            i <= curr.names().len(),
            curr.wf(),
            forall|j: int|
                0 <= j < r.names().len() ==> exists|h: int|
                    0 <= h < i && curr.names()[h] == #[trigger] r.names()[j],
            forall|k: Seq<char>|
                r@.dom().contains(k) <==> prev@.dom().contains(k) && exists|h: int|
                    0 <= h < i && curr.names()[h] == k,
            forall|k: Seq<char>| r@.dom().contains(k) ==> r@[k] == delta(prev@[k], curr@[k]),
        decreases curr.names().len() - i,
    {
        let name = curr.name_at(i);
        let now = curr.value_at(i);
        let ghost before = r;
        match prev.get(name.as_str()) {
            Some(then) => {
                let gain: u128 = if now >= then {
                    now - then
                } else {
                    0
                };
                proof {
                    assert forall|j: int| 0 <= j < r.names().len() implies crate::names::name_lt(
                        #[trigger] r.names()[j],
                        name@,
                    ) by {
                        let h = choose|h: int| 0 <= h < i && curr.names()[h] == r.names()[j];
                        assert(crate::names::name_lt(curr.names()[h], curr.names()[i as int]));
                    }
                }
                r.append(name.clone(), gain);
                proof {
                    assert forall|j: int| 0 <= j < r.names().len() implies exists|h: int|
                        0 <= h < i + 1 && curr.names()[h] == #[trigger] r.names()[j] by {
                        if j < before.names().len() {
                            let h = choose|h: int|
                                0 <= h < i && curr.names()[h] == before.names()[j];
                            assert(curr.names()[h] == r.names()[j]);
                        } else {
                            assert(curr.names()[i as int] == r.names()[j]);
                        }
                    }
                    assert forall|k: Seq<char>|
                        r@.dom().contains(k) <==> prev@.dom().contains(k) && exists|h: int|
                            0 <= h < i + 1 && curr.names()[h] == k by {
                        if before@.dom().contains(k) {
                            let h = choose|h: int| 0 <= h < i && curr.names()[h] == k;
                            assert(0 <= h < i + 1 && curr.names()[h] == k);
                        }
                        if k == name@ {
                            assert(curr.names()[i as int] == k);
                        }
                        if prev@.dom().contains(k) && exists|h: int|
                            0 <= h < i + 1 && curr.names()[h] == k {
                            let h = choose|h: int| 0 <= h < i + 1 && curr.names()[h] == k;
                            if h < i {
                                assert(before@.dom().contains(k));
                            }
                        }
                    }
                }
            },
            None => {
                proof {
                    assert forall|k: Seq<char>|
                        r@.dom().contains(k) <==> prev@.dom().contains(k) && exists|h: int|
                            0 <= h < i + 1 && curr.names()[h] == k by {
                        if r@.dom().contains(k) {
                            let h = choose|h: int| 0 <= h < i && curr.names()[h] == k;
                            assert(0 <= h < i + 1 && curr.names()[h] == k);
                        }
                        if prev@.dom().contains(k) && exists|h: int|
                            0 <= h < i + 1 && curr.names()[h] == k {
                            let h = choose|h: int| 0 <= h < i + 1 && curr.names()[h] == k;
                            assert(h < i);
                        }
                    }
                }
            },
        }
        i += 1;
    }
    proof {
        let wanted = diff_map(prev@, curr@);
        assert forall|k: Seq<char>| r@.dom().contains(k) <==> wanted.dom().contains(k) by {
            if curr@.dom().contains(k) {
                let h = curr.names().index_of(k);
                assert(0 <= h < i && curr.names()[h] == k);
            }
            if r@.dom().contains(k) {
                let h = choose|h: int| 0 <= h < i && curr.names()[h] == k;
                assert(curr.names().contains(k));
            }
        }
        assert(r@ =~= wanted);
    }
    r
}

/// Between a snapshot and itself every counter has the delta zero.
pub proof fn law_diff_of_itself(s: Map<Seq<char>, u128>)
    ensures
        diff_map(s, s).dom() == s.dom(),
        forall|k: Seq<char>| s.dom().contains(k) ==> #[trigger] diff_map(s, s)[k] == 0,
{
    assert(diff_map(s, s).dom() =~= s.dom());
}

/// Deltas add up along the way: where `b` follows `a` and `c` follows `b`,
/// the delta of each counter from `a` to `c` is its delta from `a` to `b`
/// plus its delta from `b` to `c`.
pub proof fn law_diff_adds_up(
    a: Map<Seq<char>, u128>,
    b: Map<Seq<char>, u128>,
    c: Map<Seq<char>, u128>,
)
    requires
        follows(a, b),
        follows(b, c),
    ensures
        diff_map(a, c).dom() == diff_map(a, b).dom().intersect(diff_map(b, c).dom()),
        forall|k: Seq<char>| #[trigger]
            diff_map(a, c).dom().contains(k) ==> diff_map(a, c)[k] == diff_map(a, b)[k]
                + diff_map(b, c)[k],
{
    assert(diff_map(a, c).dom() =~= diff_map(a, b).dom().intersect(diff_map(b, c).dom()));
    assert forall|k: Seq<char>| #[trigger] diff_map(a, c).dom().contains(k) implies diff_map(
        a,
        c,
    )[k] == diff_map(a, b)[k] + diff_map(b, c)[k] by {
        assert(a.dom().contains(k));
        assert(b.dom().contains(k));
    }
}

} // verus!
