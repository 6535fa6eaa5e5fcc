//! The edit graph of two texts and the furthest point reached on each of its
//! diagonals.
//!
//! A point `(x, y)` stands for "the first `x` lines of the old text have been
//! walked over and the first `y` lines of the new text have been written".
//! A step to the right is a deletion, a step down is an insertion, and a
//! diagonal step is free where the two lines agree.  Diagonal `k` holds the
//! points with `x - y == k`.

use crate::script::Text;
use vstd::prelude::*;

verus! {

/// Diagonal `k` is one of those visited at depth `d`: `-d, -d + 2, ..., d`.
pub open spec fn on_band(d: int, k: int) -> bool {
    -d <= k <= d && (d + k) % 2 == 0
}

/// The `x` at which the run of free diagonal steps that starts at `(x, y)`
/// comes to its end.
#[verifier::opaque]
pub open spec fn snake_end(a: Text, b: Text, x: int, y: int) -> int
    decreases a.len() - x,
{
    if 0 <= x < a.len() && 0 <= y < b.len() && a[x] == b[y] {
        snake_end(a, b, x + 1, y + 1)
    } else {
        x
    }
}

/// At depth `d`, diagonal `k` is entered by a step down from diagonal `k + 1`
/// (an insertion) and not by a step to the right from diagonal `k - 1` (a
/// deletion).  The lowest diagonal can only be entered from above, the
/// highest only from the left; between them the neighbour that has come
/// further to the right is taken, and the left one on a tie.
pub open spec fn steps_down(a: Text, b: Text, d: int, k: int) -> bool
    decreases d, 0int,
{
    k == -d || (k != d && d > 0 && reach(a, b, d - 1, k - 1) < reach(a, b, d - 1, k + 1))
}

/// The `x` at which diagonal `k` is entered at depth `d`.
pub open spec fn entry(a: Text, b: Text, d: int, k: int) -> int
    decreases d, 1int,
{
    if d <= 0 {
        0
    } else if steps_down(a, b, d, k) {
        reach(a, b, d - 1, k + 1)
    } else {
        reach(a, b, d - 1, k - 1) + 1
    }
}

/// The furthest `x` on diagonal `k` that the search records at depth `d`.
#[verifier::opaque]
pub open spec fn reach(a: Text, b: Text, d: int, k: int) -> int
    decreases d, 2int,
{
    snake_end(a, b, entry(a, b, d, k), entry(a, b, d, k) - k)
}

/// The search has come to or past `(x, y)` on its diagonal at depth `d`.
pub open spec fn covered(a: Text, b: Text, d: int, x: int, y: int) -> bool {
    on_band(d, x - y) && x <= reach(a, b, d, x - y)
}

/// The point recorded for diagonal `k` at depth `d` lies at or beyond the end
/// of both texts.
pub open spec fn finished_at(a: Text, b: Text, d: int, k: int) -> bool {
    reach(a, b, d, k) >= a.len() && reach(a, b, d, k) - k >= b.len()
}

/// By how much `v` exceeds `limit`.
pub open spec fn excess(v: int, limit: int) -> int {
    if v > limit {
        v - limit
    } else {
        0
    }
}

/// A run of free steps only moves forward, stays inside the graph, passes
/// over equal lines only, and stops only where it must.
pub proof fn lemma_snake(a: Text, b: Text, x: int, y: int)
    ensures
        x <= snake_end(a, b, x, y),
        snake_end(a, b, x, y) > x ==> 0 <= x && 0 <= y && snake_end(a, b, x, y) <= a.len()
            && snake_end(a, b, x, y) - x + y <= b.len(),
        forall|i: int| x <= i < snake_end(a, b, x, y) ==> a[i] == b[i - x + y],
        !({
            let e = snake_end(a, b, x, y);
            0 <= e < a.len() && 0 <= e - x + y < b.len() && a[e] == b[e - x + y]
        }),
    decreases a.len() - x,
{
    reveal(snake_end);
    if 0 <= x < a.len() && 0 <= y < b.len() && a[x] == b[y] {
        lemma_snake(a, b, x + 1, y + 1);
    }
}

/// A run of free steps goes on for as long as the two lines under it agree.
pub proof fn lemma_snake_unfold(a: Text, b: Text, x: int, y: int)
    ensures
        snake_end(a, b, x, y) == if 0 <= x < a.len() && 0 <= y < b.len() && a[x] == b[y] {
            snake_end(a, b, x + 1, y + 1)
        } else {
            x
        },
{
    reveal(snake_end);
}

/// The recorded point of a diagonal is the end of the free run that starts
/// where the diagonal is entered.
pub proof fn lemma_reach_unfold(a: Text, b: Text, d: int, k: int)
    ensures
        reach(a, b, d, k) == snake_end(a, b, entry(a, b, d, k), entry(a, b, d, k) - k),
{
    reveal(reach);
}

/// The neighbour from which a diagonal is entered was visited one depth
/// earlier.
pub proof fn lemma_source_on_band(a: Text, b: Text, d: int, k: int)
    requires
        d >= 1,
        on_band(d, k),
    ensures
        steps_down(a, b, d, k) ==> on_band(d - 1, k + 1),
        !steps_down(a, b, d, k) ==> on_band(d - 1, k - 1),
{
}

/// Recorded points never have a negative coordinate and leave the graph by
/// no more than the depth.
pub proof fn lemma_reach_in_range(a: Text, b: Text, d: int, k: int)
    requires
        on_band(d, k),
    ensures
        0 <= entry(a, b, d, k) <= reach(a, b, d, k) <= a.len() + d,
        0 <= entry(a, b, d, k) - k <= reach(a, b, d, k) - k <= b.len() + d,
    decreases d,
{
    reveal(reach);
    let e = entry(a, b, d, k);
    lemma_snake(a, b, e, e - k);
    if d >= 1 {
        lemma_source_on_band(a, b, d, k);
        if steps_down(a, b, d, k) {
            lemma_reach_in_range(a, b, d - 1, k + 1);
        } else {
            lemma_reach_in_range(a, b, d - 1, k - 1);
        }
    }
}

/// One deletion after a covered point leads to a covered point.
pub proof fn lemma_step_right(a: Text, b: Text, d: int, x: int, y: int)
    requires
        covered(a, b, d, x, y),
    ensures
        covered(a, b, d + 1, x + 1, y),
{
    reveal(reach);
    let k = x - y + 1;
    let e = entry(a, b, d + 1, k);
    lemma_snake(a, b, e, e - k);
}

/// One insertion after a covered point leads to a covered point.
pub proof fn lemma_step_down(a: Text, b: Text, d: int, x: int, y: int)
    requires
        covered(a, b, d, x, y),
    ensures
        covered(a, b, d + 1, x, y + 1),
{
    reveal(reach);
    let k = x - y - 1;
    let e = entry(a, b, d + 1, k);
    lemma_snake(a, b, e, e - k);
}

/// A free step after a covered point leads to a covered point.
pub proof fn lemma_step_diagonal(a: Text, b: Text, d: int, x: int, y: int)
    requires
        covered(a, b, d, x, y),
        0 <= x < a.len(),
        0 <= y < b.len(),
        a[x] == b[y],
    ensures
        covered(a, b, d, x + 1, y + 1),
{
    reveal(reach);
    let k = x - y;
    let e = entry(a, b, d, k);
    lemma_snake(a, b, e, e - k);
}

/// Where a recorded point lies outside the graph, the point of the graph's
/// border nearest to it was covered earlier, by as many depths as the point
/// lies outside.
pub proof fn lemma_border_covered(a: Text, b: Text, d: int, k: int)
    requires
        on_band(d, k),
    ensures
        ({
            let x = reach(a, b, d, k);
            let y = x - k;
            let ex = excess(x, a.len() as int);
            let ey = excess(y, b.len() as int);
            covered(a, b, d - ex - ey, x - ex, y - ey)
        }),
    decreases d,
{
    reveal(reach);
    let n = a.len() as int;
    let m = b.len() as int;
    let e = entry(a, b, d, k);
    let x = reach(a, b, d, k);
    let y = x - k;
    lemma_snake(a, b, e, e - k);
    lemma_reach_in_range(a, b, d, k);
    if x > e || d <= 0 {
        assert(excess(x, n) == 0 && excess(y, m) == 0);
    } else {
        lemma_source_on_band(a, b, d, k);
        if steps_down(a, b, d, k) {
            let px = reach(a, b, d - 1, k + 1);
            let py = px - (k + 1);
            lemma_border_covered(a, b, d - 1, k + 1);
            lemma_reach_in_range(a, b, d - 1, k + 1);
            let pex = excess(px, n);
            let pey = excess(py, m);
            if py < m {
                lemma_step_down(a, b, d - 1 - pex, px - pex, py);
            }
        } else {
            let px = reach(a, b, d - 1, k - 1);
            let py = px - (k - 1);
            lemma_border_covered(a, b, d - 1, k - 1);
            lemma_reach_in_range(a, b, d - 1, k - 1);
            let pex = excess(px, n);
            let pey = excess(py, m);
            if px < n {
                lemma_step_right(a, b, d - 1 - pey, px, py - pey);
            }
        }
    }
}

/// A recorded point at or beyond the end of both texts is the end itself,
/// unless the search was already finished at a lower depth.
pub proof fn lemma_finish_is_exact(a: Text, b: Text, d: int, k: int)
    requires
        on_band(d, k),
        finished_at(a, b, d, k),
        forall|e: int, j: int| 0 <= e < d && on_band(e, j) ==> !finished_at(a, b, e, j),
    ensures
        k == a.len() - b.len(),
        reach(a, b, d, k) == a.len(),
{
    lemma_border_covered(a, b, d, k);
    let x = reach(a, b, d, k);
    let ex = excess(x, a.len() as int);
    let ey = excess(x - k, b.len() as int);
    if ex + ey > 0 {
        assert(on_band(d - ex - ey, a.len() - b.len()));
        assert(finished_at(a, b, d - ex - ey, a.len() - b.len()));
    }
}

} // verus!
