//! Forests given by parents: each position holds the position of its
//! parent, or none, and no position is its own ancestor.

use crate::database::ids::{shifted, shifted_option_if};
use vstd::prelude::*;

verus! {

/// Whether the climb from `i` from parent to parent ends at a position
/// without a parent after at most `fuel` steps, without leaving `parents`.
pub open spec fn climbs_out(parents: Seq<Option<usize>>, i: int, fuel: nat) -> bool
    decreases fuel,
{
    0 <= i < parents.len() && match parents[i] {
        None => true,
        Some(p) => fuel > 0 && climbs_out(parents, p as int, (fuel - 1) as nat),
    }
}

/// Whether `parents` give a forest: from every position the climb from
/// parent to parent ends, so that no position is its own ancestor. In a
/// forest no climb takes as many steps as there are positions.
pub open spec fn parents_forest(parents: Seq<Option<usize>>) -> bool {
    forall|i: int| 0 <= i < parents.len() ==> #[trigger] climbs_out(parents, i, parents.len())
}

/// `parents` after an insertion at `k` of a position with the parent
/// `parent`: every position from `k` on moves up by one, and every parent
/// follows.
pub open spec fn parents_inserted(parents: Seq<Option<usize>>, k: usize, parent: Option<usize>)
    -> Seq<Option<usize>> {
    Seq::new(
        parents.len() + 1,
        |j: int|
            if j < k {
                shifted_option_if(true, parents[j], k)
            } else if j == k {
                parent
            } else {
                shifted_option_if(true, parents[j - 1], k)
            },
    )
}

/// A climb that ends within some steps ends within one more.
pub proof fn lemma_more_fuel(parents: Seq<Option<usize>>, i: int, fuel: nat)
    requires
        climbs_out(parents, i, fuel),
    ensures
        climbs_out(parents, i, fuel + 1),
    decreases fuel,
{
    match parents[i] {
        Some(p) => {
            lemma_more_fuel(parents, p as int, (fuel - 1) as nat);
        },
        None => {},
    }
}

/// A climb ends as before when a position is added at the end.
pub proof fn lemma_climbs_after_push(
    parents: Seq<Option<usize>>,
    added: Option<usize>,
    i: int,
    fuel: nat,
)
    requires
        climbs_out(parents, i, fuel),
    ensures
        climbs_out(parents.push(added), i, fuel),
    decreases fuel,
{
    assert(parents.push(added)[i] == parents[i]);
    match parents[i] {
        Some(p) => {
            lemma_climbs_after_push(parents, added, p as int, (fuel - 1) as nat);
        },
        None => {},
    }
}

/// A forest stays one when a position is added at the end whose parent, if
/// it has one, was there before.
pub proof fn lemma_forest_after_push(parents: Seq<Option<usize>>, added: Option<usize>)
    requires
        parents_forest(parents),
        match added {
            Some(p) => p < parents.len(),
            None => true,
        },
    ensures
        parents_forest(parents.push(added)),
{
    let after = parents.push(added);
    let n = parents.len();
    assert forall|i: int| 0 <= i < after.len() implies #[trigger] climbs_out(
        after,
        i,
        after.len(),
    ) by {
        if i < n {
            assert(climbs_out(parents, i, n));
            lemma_climbs_after_push(parents, added, i, n);
            lemma_more_fuel(after, i, n);
        } else {
            match added {
                Some(p) => {
                    assert(climbs_out(parents, p as int, n));
                    lemma_climbs_after_push(parents, added, p as int, n);
                },
                None => {},
            }
        }
    }
}

/// Where a position stands after an insertion at `k`.
pub open spec fn moved(i: int, k: usize) -> int {
    if i < k {
        i
    } else {
        i + 1
    }
}

/// A climb ends as before, from where its start has moved to, after an
/// insertion.
pub proof fn lemma_climbs_after_insert(
    parents: Seq<Option<usize>>,
    k: usize,
    parent: Option<usize>,
    i: int,
    fuel: nat,
)
    requires
        k <= parents.len() < usize::MAX,
        climbs_out(parents, i, fuel),
    ensures
        climbs_out(parents_inserted(parents, k, parent), moved(i, k), fuel),
    decreases fuel,
{
    let after = parents_inserted(parents, k, parent);
    assert(after[moved(i, k)] == shifted_option_if(true, parents[i], k));
    match parents[i] {
        Some(p) => {
            lemma_climbs_after_insert(parents, k, parent, p as int, (fuel - 1) as nat);
            assert(shifted(p, k) as int == moved(p as int, k));
        },
        None => {},
    }
}

/// A forest stays one after an insertion of a position that is not its own
/// parent and whose parent, if it has one, is there afterwards.
pub proof fn lemma_forest_after_insert(
    parents: Seq<Option<usize>>,
    k: usize,
    parent: Option<usize>,
)
    requires
        parents_forest(parents),
        k <= parents.len() < usize::MAX,
        match parent {
            Some(p) => p <= parents.len() && p != k,
            None => true,
        },
    ensures
        parents_forest(parents_inserted(parents, k, parent)),
{
    let after = parents_inserted(parents, k, parent);
    let n = parents.len();
    assert forall|j: int| 0 <= j < after.len() implies #[trigger] climbs_out(
        after,
        j,
        after.len(),
    ) by {
        if j == k {
            match parent {
                Some(p) => {
                    let q = if p < k {
                        p as int
                    } else {
                        p - 1
                    };
                    assert(climbs_out(parents, q, n));
                    lemma_climbs_after_insert(parents, k, parent, q, n);
                    assert(moved(q, k) == p);
                },
                None => {},
            }
        } else {
            let i = if j < k {
                j
            } else {
                j - 1
            };
            assert(climbs_out(parents, i, n));
            lemma_climbs_after_insert(parents, k, parent, i, n);
            assert(moved(i, k) == j);
            lemma_more_fuel(after, j, n);
        }
    }
}

/// Whether the climb from `i` ends within `fuel` steps.
pub fn climb_ends(parents: &Vec<Option<usize>>, i: usize, fuel: usize) -> (r: bool)
    ensures
        r == climbs_out(parents@, i as int, fuel as nat),
{
    let mut at: usize = i;
    let mut left: usize = fuel;
    loop
        invariant
            climbs_out(parents@, i as int, fuel as nat) == climbs_out(
                parents@,
                at as int,
                left as nat,
            ),
        decreases left,
    {
        if at >= parents.len() {
            return false;
        }
        match parents[at] {
            None => {
                return true;
            },
            Some(p) => {
                if left == 0 {
                    return false;
                }
                at = p;
                left -= 1;
            },
        }
    }
}

/// Whether `parents` give a forest.
pub fn is_forest(parents: &Vec<Option<usize>>) -> (r: bool)
    ensures
        r == parents_forest(parents@),
{
    let mut i: usize = 0;
    while i < parents.len()
        invariant
            i <= parents.len(),
            forall|j: int| 0 <= j < i ==> #[trigger] climbs_out(parents@, j, parents@.len()),
        decreases parents.len() - i,
    {
        if !climb_ends(parents, i, parents.len()) {
            return false;
        }
        i += 1;
    }
    true
}

} // verus!
