//! The search for a shortest edit script.

use crate::apply::replay;
use crate::backtrack::backtrack;
use crate::distance::{diff_script, edit_distance, lemma_distance_bound, lemma_finished_at_distance, lemma_first_finish};
use crate::laws::{lemma_from_empty, lemma_identity, lemma_round_trip, lemma_to_empty};
use crate::graph::{entry, finished_at, lemma_reach_in_range, lemma_reach_unfold, lemma_snake_unfold, lemma_source_on_band, on_band, reach, snake_end};
use crate::path::{delete_run, equal_run, insert_run};
use crate::script::{cost, rewrites, EditRecord};
use crate::table::{entered_from_above, holds_depth, lemma_table_updated, looked_up, lookup, records};
use std::collections::HashMap;
use vstd::pervasive::unreached;
use vstd::prelude::*;

verus! {

/// Why no edit script was computed.
#[derive(Clone, Copy, Debug, PartialEq, Eq, Structural)]
pub enum DiffError {
    /// The two texts together have more lines than the search can count.
    InputTooLarge,
}

/// Follows the run of equal lines that starts at `(x, y)` and returns the
/// `x` at which it ends.
fn follow_snake(old: &[String], new: &[String], x: usize, y: usize) -> (end: usize)
    ensures
        end == snake_end(old.deep_view(), new.deep_view(), x as int, y as int),
{
    let ghost a = old.deep_view();
    let ghost b = new.deep_view();
    let mut cur_x: usize = x;
    let mut cur_y: usize = y;
    proof {
        lemma_snake_unfold(a, b, cur_x as int, cur_y as int);
    }
    while cur_x < old.len() && cur_y < new.len() && old[cur_x] == new[cur_y]
        invariant
            a == old.deep_view(),
            b == new.deep_view(),
            snake_end(a, b, cur_x as int, cur_y as int) == snake_end(a, b, x as int, y as int),
            snake_end(a, b, cur_x as int, cur_y as int) == if cur_x < a.len() && cur_y < b.len()
                && a[cur_x as int] == b[cur_y as int] {
                snake_end(a, b, cur_x + 1, cur_y + 1)
            } else {
                cur_x as int
            },
        decreases old.len() - cur_x,
    {
        cur_x += 1;
        cur_y += 1;
        proof {
            lemma_snake_unfold(a, b, cur_x as int, cur_y as int);
        }
    }
    cur_x
}

/// Visits diagonal `k` at depth `d`: enters it from the neighbour that the
/// table of the depth before points to, follows the free run, and records
/// the point reached in `next`.  Returns that point.
fn visit(
    old_lines: &[String],
    new_lines: &[String],
    table: &HashMap<isize, usize>,
    next: &mut HashMap<isize, usize>,
    d: usize,
    k: isize,
) -> (end: (usize, usize))
    requires
        d <= old_lines.len() + new_lines.len() <= isize::MAX,
        on_band(d as int, k as int),
        d == 0 ==> looked_up(table@, 1) == 0,
        d > 0 ==> holds_depth(table@, old_lines.deep_view(), new_lines.deep_view(), d - 1),
    ensures
        end.0 == reach(old_lines.deep_view(), new_lines.deep_view(), d as int, k as int),
        end.1 == end.0 - k,
        final(next)@ == old(next)@.insert(k, end.0),
{
    let ghost a = old_lines.deep_view();
    let ghost b = new_lines.deep_view();
    proof {
        lemma_reach_unfold(a, b, d as int, k as int);
        lemma_reach_in_range(a, b, d as int, k as int);
        if d > 0 {
            lemma_source_on_band(a, b, d as int, k as int);
            if on_band(d - 1, k - 1) {
                assert(records(table@, a, b, d - 1, k - 1));
            }
            if on_band(d - 1, k + 1) {
                assert(records(table@, a, b, d - 1, k + 1));
            }
        }
    }
    let x: usize = if entered_from_above(table, d as isize, k) {
        lookup(table, k + 1)
    } else {
        lookup(table, k - 1) + 1
    };
    assert(x == entry(a, b, d as int, k as int));
    let y: usize = if k >= 0 {
        x - (k as usize)
    } else {
        x + ((-k) as usize)
    };
    let x_end = follow_snake(old_lines, new_lines, x, y);
    let y_end = y + (x_end - x);
    next.insert(k, x_end);
    (x_end, y_end)
}

/// Computes a shortest edit script from `old` to `new`.
///
/// The search visits the diagonals of the edit graph depth by depth, where
/// the depth is the number of insertions and deletions spent, and keeps for
/// each diagonal the furthest point reached.  It stops at the first depth at
/// which the end of both texts is reached, and reads the script back out of
/// the tables it kept.
///
/// The two texts together must not have more than `isize::MAX` lines.
pub fn myers_diff(old: &[String], new: &[String]) -> (script: Vec<EditRecord>)
    requires
        old.len() + new.len() <= isize::MAX,
    ensures
        script.deep_view() == diff_script(old.deep_view(), new.deep_view()),
        rewrites(script.deep_view(), old.deep_view(), new.deep_view()),
        cost(script.deep_view()) == edit_distance(old.deep_view(), new.deep_view()),
        replay(old.deep_view(), script.deep_view()) == Some(new.deep_view()),
        old.deep_view() == new.deep_view() ==> script.deep_view() == equal_run(
            old.deep_view(),
            0,
            old.len() as int,
        ),
        old.len() == 0 ==> script.deep_view() == insert_run(new.deep_view()),
        new.len() == 0 ==> script.deep_view() == delete_run(old.deep_view()),
{
    let ghost a = old.deep_view();
    let ghost b = new.deep_view();
    let n: usize = old.len();
    let m: usize = new.len();
    let max: usize = n + m;
    let mut v: HashMap<isize, usize> = HashMap::new();
    v.insert(1, 0);
    let mut trace: Vec<HashMap<isize, usize>> = Vec::new();
    let mut d: usize = 0;
    while d <= max
        invariant
            a == old.deep_view(),
            b == new.deep_view(),
            n == old.len(),
            m == new.len(),
            max == n + m <= isize::MAX,
            d <= max + 1,
            trace.len() == d,
            forall|e: int| 1 <= e < d ==> #[trigger] holds_depth(trace@[e]@, a, b, e - 1),
            d == 0 ==> looked_up(v@, 1) == 0,
            d > 0 ==> holds_depth(v@, a, b, d - 1),
            forall|e: int, j: int| 0 <= e < d && on_band(e, j) ==> !finished_at(a, b, e, j),
        decreases max + 1 - d,
    {
        let mut v_next = v.clone();
        let di: isize = d as isize;
        let mut k: isize = -di;
        loop
            invariant_except_break
                on_band(d as int, k as int),
                forall|j: int|
                    on_band(d as int, j) && j < k ==> #[trigger] records(v_next@, a, b, d as int, j),
                forall|j: int| on_band(d as int, j) && j < k ==> !finished_at(a, b, d as int, j),
            invariant
                a == old.deep_view(),
                b == new.deep_view(),
                n == old.len(),
                m == new.len(),
                max == n + m <= isize::MAX,
                d <= max,
                di == d,
                trace.len() == d,
                forall|e: int| 1 <= e < d ==> #[trigger] holds_depth(trace@[e]@, a, b, e - 1),
                d == 0 ==> looked_up(v@, 1) == 0,
                d > 0 ==> holds_depth(v@, a, b, d - 1),
                d > 0 ==> holds_depth(v_next@, a, b, d - 1),
                forall|e: int, j: int| 0 <= e < d && on_band(e, j) ==> !finished_at(a, b, e, j),
            ensures
                holds_depth(v_next@, a, b, d as int),
                forall|j: int| on_band(d as int, j) ==> !finished_at(a, b, d as int, j),
            decreases di - k,
        {
            let ghost table_before = v_next@;
            let (x_end, y_end) = visit(old, new, &v, &mut v_next, d, k);
            proof {
                lemma_table_updated(table_before, v_next@, a, b, d as int, k as int);
            }
            if x_end >= n && y_end >= m {
                return finish(old, new, trace, v_next, d, Ghost(k as int));
            }
            if k == di {
                break ;
            }
            k += 2;
        }
        trace.push(v_next.clone());
        v = v_next;
        d += 1;
    }
    proof {
        lemma_distance_bound(a, b);
        lemma_finished_at_distance(a, b);
    }
    unreached()
}

/// Ends a search that has come to the end of both texts at depth `d`, on
/// diagonal `k`: appends the table of that depth to the trace and reads the
/// script back out of it.
fn finish(
    old: &[String],
    new: &[String],
    trace: Vec<HashMap<isize, usize>>,
    table: HashMap<isize, usize>,
    d: usize,
    Ghost(k): Ghost<int>,
) -> (script: Vec<EditRecord>)
    requires
        d <= old.len() + new.len() <= isize::MAX,
        trace.len() == d,
        forall|e: int|
            1 <= e < d ==> #[trigger] holds_depth(
                trace@[e]@,
                old.deep_view(),
                new.deep_view(),
                e - 1,
            ),
        d > 0 ==> holds_depth(table@, old.deep_view(), new.deep_view(), d - 1),
        on_band(d as int, k),
        finished_at(old.deep_view(), new.deep_view(), d as int, k),
        forall|e: int, j: int|
            0 <= e < d && on_band(e, j) ==> !finished_at(old.deep_view(), new.deep_view(), e, j),
    ensures
        script.deep_view() == diff_script(old.deep_view(), new.deep_view()),
        rewrites(script.deep_view(), old.deep_view(), new.deep_view()),
        cost(script.deep_view()) == edit_distance(old.deep_view(), new.deep_view()),
        replay(old.deep_view(), script.deep_view()) == Some(new.deep_view()),
        old.deep_view() == new.deep_view() ==> script.deep_view() == equal_run(
            old.deep_view(),
            0,
            old.len() as int,
        ),
        old.len() == 0 ==> script.deep_view() == insert_run(new.deep_view()),
        new.len() == 0 ==> script.deep_view() == delete_run(old.deep_view()),
{
    let ghost a = old.deep_view();
    let ghost b = new.deep_view();
    let ghost earlier = trace@;
    let mut trace = trace;
    trace.push(table);
    proof {
        lemma_first_finish(a, b, d as int, k);
        lemma_round_trip(a, b);
        lemma_identity(a);
        lemma_from_empty(b);
        lemma_to_empty(a);
        if a.len() == 0 {
            assert(a == Seq::<Seq<char>>::empty());
        }
        if b.len() == 0 {
            assert(b == Seq::<Seq<char>>::empty());
        }
        assert forall|e: int| 1 <= e <= d implies #[trigger] holds_depth(
            trace@[e]@,
            a,
            b,
            e - 1,
        ) by {
            if e < d {
                assert(trace@[e] == earlier[e]);
            }
        }
    }
    backtrack(old, new, &trace, d)
}

/// Computes a shortest edit script from `old_lines` to `new_lines`, for
/// texts of any size: texts too long for the search are refused.
pub fn diff_lines(old_lines: &[String], new_lines: &[String]) -> (result: Result<
    Vec<EditRecord>,
    DiffError,
>)
    ensures
        match result {
            Ok(script) => {
                &&& old_lines.len() + new_lines.len() <= isize::MAX
                &&& script.deep_view() == diff_script(old_lines.deep_view(), new_lines.deep_view())
                &&& rewrites(script.deep_view(), old_lines.deep_view(), new_lines.deep_view())
                &&& cost(script.deep_view()) == edit_distance(
                    old_lines.deep_view(),
                    new_lines.deep_view(),
                )
                &&& replay(old_lines.deep_view(), script.deep_view()) == Some(
                    new_lines.deep_view(),
                )
                &&& old_lines.deep_view() == new_lines.deep_view() ==> script.deep_view()
                    == equal_run(old_lines.deep_view(), 0, old_lines.len() as int)
                &&& old_lines.len() == 0 ==> script.deep_view() == insert_run(
                    new_lines.deep_view(),
                )
                &&& new_lines.len() == 0 ==> script.deep_view() == delete_run(
                    old_lines.deep_view(),
                )
            },
            Err(DiffError::InputTooLarge) => old_lines.len() + new_lines.len() > isize::MAX,
        },
{
    let limit: usize = isize::MAX as usize;
    if old_lines.len() > limit || new_lines.len() > limit - old_lines.len() {
        Err(DiffError::InputTooLarge)
    } else {
        Ok(myers_diff(old_lines, new_lines))
    }
}

} // verus!
