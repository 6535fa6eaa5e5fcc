//! The table in which the search keeps, for each diagonal, the furthest
//! point it has reached, and the trace of such tables.

use crate::graph::{on_band, reach};
use crate::script::Text;
use std::collections::HashMap;
use vstd::prelude::*;

verus! {

/// The entry of `table` for diagonal `k`, and zero where there is none.
pub open spec fn looked_up(table: Map<isize, usize>, k: isize) -> usize {
    if table.contains_key(k) {
        table[k]
    } else {
        0
    }
}

/// `table` holds for diagonal `k` the point that the search records for it
/// at depth `d`.
pub open spec fn records(table: Map<isize, usize>, a: Text, b: Text, d: int, k: int) -> bool {
    table.contains_key(k as isize) && table[k as isize] == reach(a, b, d, k)
}

/// `table` holds the recorded point of every diagonal visited at depth `d`.
pub open spec fn holds_depth(table: Map<isize, usize>, a: Text, b: Text, d: int) -> bool {
    forall|k: int| on_band(d, k) ==> #[trigger] records(table, a, b, d, k)
}

/// `trace` is the trace of a search that ended at depth `d`: one table for
/// each depth from 0 to `d`, of which the table of each depth after the
/// first still holds every point recorded one depth earlier.
pub open spec fn is_trace(trace: Seq<HashMap<isize, usize>>, a: Text, b: Text, d: int) -> bool {
    &&& trace.len() == d + 1
    &&& forall|e: int| 1 <= e <= d ==> #[trigger] holds_depth(trace[e]@, a, b, e - 1)
}

/// Recording the point of diagonal `k` at depth `d` leaves every point
/// recorded one depth earlier in the table, and every point recorded at
/// depth `d` for a diagonal below `k`.
pub proof fn lemma_table_updated(
    before: Map<isize, usize>,
    after: Map<isize, usize>,
    a: Text,
    b: Text,
    d: int,
    k: int,
)
    requires
        0 <= d <= isize::MAX,
        on_band(d, k),
        0 <= reach(a, b, d, k) <= usize::MAX,
        after == before.insert(k as isize, reach(a, b, d, k) as usize),
        d > 0 ==> holds_depth(before, a, b, d - 1),
        forall|j: int| on_band(d, j) && j < k ==> #[trigger] records(before, a, b, d, j),
    ensures
        d > 0 ==> holds_depth(after, a, b, d - 1),
        forall|j: int| on_band(d, j) && j < k + 2 ==> #[trigger] records(after, a, b, d, j),
{
    assert(records(after, a, b, d, k));
    assert forall|j: int| on_band(d, j) && j < k + 2 implies #[trigger] records(
        after,
        a,
        b,
        d,
        j,
    ) by {
        if j < k {
            assert(records(before, a, b, d, j));
        }
    }
    if d > 0 {
        assert forall|j: int| on_band(d - 1, j) implies #[trigger] records(after, a, b, d - 1, j) by {
            assert(records(before, a, b, d - 1, j));
        }
    }
}

/// Reads the entry of `table` for diagonal `k`; a diagonal without an entry
/// reads as zero.
pub(crate) fn lookup(table: &HashMap<isize, usize>, k: isize) -> (x: usize)
    ensures
        x == looked_up(table@, k),
{
    match table.get(&k) {
        Some(x) => *x,
        None => 0,
    }
}

/// Tells, from the table left by depth `depth - 1`, whether diagonal `k` is
/// entered at depth `depth` by a step down from diagonal `k + 1`: always on
/// the lowest diagonal, never on the highest, and between them where the
/// upper neighbour has come further to the right than the lower one.
pub(crate) fn entered_from_above(table: &HashMap<isize, usize>, depth: isize, k: isize) -> (down:
    bool)
    requires
        -isize::MAX <= -depth <= k <= depth,
    ensures
        down == (k == -depth || (k != depth && looked_up(table@, (k - 1) as isize) < looked_up(
            table@,
            (k + 1) as isize,
        ))),
{
    k == -depth || (k != depth && lookup(table, k - 1) < lookup(table, k + 1))
}

} // verus!
