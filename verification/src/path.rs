//! The edit script that leads to a recorded point of the edit graph.

use crate::graph::{entry, lemma_reach_in_range, lemma_reach_unfold, lemma_snake, lemma_source_on_band, on_band, reach, steps_down};
use crate::script::{consumed, cost, lemma_concat, lemma_push_step, produced, EditOp, EditView, Text};
use vstd::prelude::*;

verus! {

/// `Equal` steps for the lines of `a` from index `from` up to, not
/// including, index `to`.
pub open spec fn equal_run(a: Text, from: int, to: int) -> Seq<EditView> {
    Seq::new((to - from) as nat, |i: int| EditView { op: EditOp::Equal, line: a[from + i] })
}

/// One `Insert` step for each line of `b`, in order.
pub open spec fn insert_run(b: Text) -> Seq<EditView> {
    Seq::new(b.len(), |i: int| EditView { op: EditOp::Insert, line: b[i] })
}

/// One `Delete` step for each line of `a`, in order.
pub open spec fn delete_run(a: Text) -> Seq<EditView> {
    Seq::new(a.len(), |i: int| EditView { op: EditOp::Delete, line: a[i] })
}

/// The single step that is not free on the way into diagonal `k` at depth
/// `d`: the insertion of a line of `b`, or the deletion of a line of `a`.
pub open spec fn entry_step(a: Text, b: Text, d: int, k: int) -> EditView {
    if steps_down(a, b, d, k) {
        EditView { op: EditOp::Insert, line: b[entry(a, b, d, k) - k - 1] }
    } else {
        EditView { op: EditOp::Delete, line: a[entry(a, b, d, k) - 1] }
    }
}

/// The diagonal from which diagonal `k` is entered at depth `d`.
pub open spec fn source(a: Text, b: Text, d: int, k: int) -> int {
    if steps_down(a, b, d, k) {
        k + 1
    } else {
        k - 1
    }
}

/// The script of the path on which the search comes to the point that it
/// records for diagonal `k` at depth `d`: the path to the neighbouring point
/// one depth earlier, then one insertion or deletion, then the free run.
#[verifier::opaque]
pub open spec fn path(a: Text, b: Text, d: int, k: int) -> Seq<EditView>
    decreases d,
{
    if d <= 0 {
        equal_run(a, 0, reach(a, b, d, k))
    } else {
        path(a, b, d - 1, source(a, b, d, k)).push(entry_step(a, b, d, k)) + equal_run(
            a,
            entry(a, b, d, k),
            reach(a, b, d, k),
        )
    }
}

/// The path to a recorded point, taken apart at its last step that is not
/// free.
pub proof fn lemma_path_unfold(a: Text, b: Text, d: int, k: int)
    ensures
        path(a, b, d, k) == if d <= 0 {
            equal_run(a, 0, reach(a, b, d, k))
        } else {
            path(a, b, d - 1, source(a, b, d, k)).push(entry_step(a, b, d, k)) + equal_run(
                a,
                entry(a, b, d, k),
                reach(a, b, d, k),
            )
        },
{
    reveal(path);
}

/// A run of `Equal` steps walks over and writes the lines it names, at no
/// cost.
pub proof fn lemma_equal_run(a: Text, from: int, to: int)
    requires
        0 <= from <= to <= a.len(),
    ensures
        consumed(equal_run(a, from, to)) == a.subrange(from, to),
        produced(equal_run(a, from, to)) == a.subrange(from, to),
        cost(equal_run(a, from, to)) == 0,
    decreases to - from,
{
    let r = equal_run(a, from, to);
    if from < to {
        lemma_equal_run(a, from, to - 1);
        assert(r.drop_last() == equal_run(a, from, to - 1));
        assert(a.subrange(from, to - 1).push(a[to - 1]) == a.subrange(from, to));
    } else {
        assert(a.subrange(from, to) == Seq::<Seq<char>>::empty());
    }
}

/// The path to a recorded point that lies inside the graph is an edit script
/// between the two prefixes that the point stands for, and its cost is the
/// depth.
pub proof fn lemma_path_rewrites(a: Text, b: Text, d: int, k: int)
    requires
        on_band(d, k),
        reach(a, b, d, k) <= a.len(),
        reach(a, b, d, k) - k <= b.len(),
    ensures
        consumed(path(a, b, d, k)) == a.take(reach(a, b, d, k)),
        produced(path(a, b, d, k)) == b.take(reach(a, b, d, k) - k),
        cost(path(a, b, d, k)) == d,
    decreases d,
{
    reveal(path);
    let e = entry(a, b, d, k);
    let x = reach(a, b, d, k);
    let run = equal_run(a, e, x);
    lemma_reach_unfold(a, b, d, k);
    lemma_snake(a, b, e, e - k);
    lemma_reach_in_range(a, b, d, k);
    lemma_equal_run(a, e, x);
    assert(a.subrange(e, x) == b.subrange(e - k, x - k));
    if d <= 0 {
        assert(a.subrange(0, x) == a.take(x));
        assert(b.subrange(0, x) == b.take(x));
    } else {
        let pk = source(a, b, d, k);
        let before = path(a, b, d - 1, pk);
        let step = entry_step(a, b, d, k);
        lemma_source_on_band(a, b, d, k);
        lemma_reach_in_range(a, b, d - 1, pk);
        lemma_path_rewrites(a, b, d - 1, pk);
        lemma_push_step(before, step);
        lemma_concat(before.push(step), run);
        let px = reach(a, b, d - 1, pk);
        if steps_down(a, b, d, k) {
            assert(b.take(px - pk).push(b[e - k - 1]) == b.take(e - k));
        } else {
            assert(a.take(px).push(a[e - 1]) == a.take(e));
        }
        assert(a.take(e) + a.subrange(e, x) == a.take(x));
        assert(b.take(e - k) + b.subrange(e - k, x - k) == b.take(x - k));
    }
}

} // verus!
