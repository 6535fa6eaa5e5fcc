//! Reading the edit script back out of the trace of a search.

use crate::graph::{entry, lemma_reach_in_range, lemma_reach_unfold, lemma_snake, lemma_source_on_band, on_band, reach, steps_down};
use crate::path::{equal_run, lemma_path_rewrites, lemma_path_unfold, path, source};
use crate::script::{cost, rewrites, EditOp, EditRecord, EditView, Text};
use crate::table::{entered_from_above, holds_depth, is_trace, looked_up, lookup, records};
use std::collections::HashMap;
use vstd::prelude::*;

verus! {

/// Turns a script around: the last step comes first.
fn reversed(records: Vec<EditRecord>) -> (out: Vec<EditRecord>)
    ensures
        out.deep_view() == records.deep_view().reverse(),
{
    let ghost full = records.deep_view();
    let mut rest = records;
    let mut out: Vec<EditRecord> = Vec::new();
    while rest.len() > 0
        invariant
            rest.len() + out.len() == full.len(),
            forall|i: int| 0 <= i < rest.len() ==> rest@[i]@ == full[i],
            forall|i: int| 0 <= i < out.len() ==> out@[i]@ == full[full.len() - 1 - i],
        decreases rest.len(),
    {
        match rest.pop() {
            Some(r) => out.push(r),
            None => {},
        }
    }
    assert(out.deep_view() =~= full.reverse());
    out
}

/// Appends one step to a script that is being built last step first.
fn emit(acc: &mut Vec<EditRecord>, op: EditOp, line: &String)
    ensures
        final(acc).deep_view() == old(acc).deep_view().push(EditView { op, line: line@ }),
        final(acc).deep_view().reverse() == seq![EditView { op, line: line@ }] + old(
            acc,
        ).deep_view().reverse(),
{
    let ghost before = acc.deep_view();
    acc.push(EditRecord { op, line: line.clone() });
    assert(acc.deep_view() == before.push(EditView { op, line: line@ }));
    assert(acc.deep_view().reverse() == seq![EditView { op, line: line@ }] + before.reverse());
}

/// Appends, last line first, one `Equal` step for each line of `lines` from
/// index `from` up to, not including, index `to`.
fn emit_run(acc: &mut Vec<EditRecord>, lines: &[String], from: usize, to: usize)
    requires
        from <= to <= lines.len(),
    ensures
        final(acc).deep_view().reverse() == equal_run(lines.deep_view(), from as int, to as int)
            + old(acc).deep_view().reverse(),
{
    let ghost a = lines.deep_view();
    let ghost start = acc.deep_view().reverse();
    let mut x: usize = to;
    assert(equal_run(a, to as int, to as int) + start == start);
    while x > from
        invariant
            a == lines.deep_view(),
            from <= x <= to <= lines.len(),
            acc.deep_view().reverse() == equal_run(a, x as int, to as int) + start,
        decreases x,
    {
        let ghost run = equal_run(a, x as int, to as int);
        x -= 1;
        emit(acc, EditOp::Equal, &lines[x]);
        assert(seq![EditView { op: EditOp::Equal, line: a[x as int] }] + (run + start)
            == equal_run(a, x as int, to as int) + start);
    }
}

/// One depth of the way back from the point `(x, y)` recorded at depth `d`:
/// the table of that depth tells how its diagonal was entered and from which
/// recorded point, which lies inside the graph as well, and the path to
/// `(x, y)` is the path to that point, the step between the diagonals, and
/// the free run.
proof fn lemma_way_back(table: Map<isize, usize>, a: Text, b: Text, d: int, x: int, y: int)
    requires
        1 <= d <= isize::MAX,
        on_band(d, x - y),
        holds_depth(table, a, b, d - 1),
        x == reach(a, b, d, x - y),
        x <= a.len(),
        y <= b.len(),
    ensures
        steps_down(a, b, d, x - y) == (x - y == -d || (x - y != d && looked_up(
            table,
            (x - y - 1) as isize,
        ) < looked_up(table, (x - y + 1) as isize))),
        steps_down(a, b, d, x - y) ==> {
            let px = looked_up(table, (x - y + 1) as isize) as int;
            &&& on_band(d - 1, x - y + 1)
            &&& px == reach(a, b, d - 1, x - y + 1)
            &&& 0 <= px <= x
            &&& 0 <= y - (x - px) - 1
            &&& path(a, b, d, x - y) == path(a, b, d - 1, x - y + 1).push(
                EditView { op: EditOp::Insert, line: b[y - (x - px) - 1] },
            ) + equal_run(a, px, x)
        },
        !steps_down(a, b, d, x - y) ==> {
            let px = looked_up(table, (x - y - 1) as isize) as int;
            &&& on_band(d - 1, x - y - 1)
            &&& px == reach(a, b, d - 1, x - y - 1)
            &&& 0 <= px < x
            &&& 0 <= y - (x - px - 1)
            &&& path(a, b, d, x - y) == path(a, b, d - 1, x - y - 1).push(
                EditView { op: EditOp::Delete, line: a[px] },
            ) + equal_run(a, px + 1, x)
        },
{
    let k = x - y;
    let e = entry(a, b, d, k);
    let pk = source(a, b, d, k);
    lemma_path_unfold(a, b, d, k);
    lemma_reach_unfold(a, b, d, k);
    lemma_snake(a, b, e, e - k);
    lemma_reach_in_range(a, b, d, k);
    lemma_source_on_band(a, b, d, k);
    lemma_reach_in_range(a, b, d - 1, pk);
    if on_band(d - 1, k - 1) {
        assert(records(table, a, b, d - 1, k - 1));
    }
    if on_band(d - 1, k + 1) {
        assert(records(table, a, b, d - 1, k + 1));
    }
}

/// Walks the trace of a search back from the end of both texts and returns
/// the edit script of the path that the search took, first step first.
///
/// At each depth the table of that depth tells from which neighbouring
/// diagonal the search came; the free run that followed is emitted as `Equal`
/// steps, the step between the diagonals as one `Delete` or `Insert`.
///
/// `trace` must be the trace of a search on `old` and `new` that came to the
/// end of both texts at depth `d`, with one table for each depth up to `d`.
pub fn backtrack(
    old: &[String],
    new: &[String],
    trace: &Vec<HashMap<isize, usize>>,
    d: usize,
) -> (script: Vec<EditRecord>)
    requires
        d <= old.len() + new.len() <= isize::MAX,
        is_trace(trace@, old.deep_view(), new.deep_view(), d as int),
        on_band(d as int, old.len() - new.len()),
        reach(old.deep_view(), new.deep_view(), d as int, old.len() - new.len()) == old.len(),
    ensures
        script.deep_view() == path(
            old.deep_view(),
            new.deep_view(),
            d as int,
            old.len() - new.len(),
        ),
        rewrites(script.deep_view(), old.deep_view(), new.deep_view()),
        cost(script.deep_view()) == d,
{
    let ghost a = old.deep_view();
    let ghost b = new.deep_view();
    let ghost full = path(a, b, d as int, old.len() - new.len());
    let mut acc: Vec<EditRecord> = Vec::new();
    let mut x: usize = old.len();
    let mut y: usize = new.len();
    let mut depth: usize = d;
    proof {
        lemma_path_rewrites(a, b, d as int, old.len() - new.len());
        assert(a.take(a.len() as int) == a);
        assert(b.take(b.len() as int) == b);
        assert(full + acc.deep_view().reverse() == full);
    }
    while depth > 0
        invariant
            a == old.deep_view(),
            b == new.deep_view(),
            a.len() == old.len(),
            b.len() == new.len(),
            depth <= d <= old.len() + new.len() <= isize::MAX,
            trace.len() == d + 1,
            forall|e: int| 1 <= e <= d ==> #[trigger] holds_depth(trace@[e]@, a, b, e - 1),
            x <= old.len(),
            y <= new.len(),
            on_band(depth as int, x - y),
            x == reach(a, b, depth as int, x - y),
            full == path(a, b, depth as int, x - y) + acc.deep_view().reverse(),
        decreases depth,
    {
        let table = &trace[depth];
        let k: isize = x as isize - y as isize;
        let ghost rest = acc.deep_view().reverse();
        let ghost here = path(a, b, depth as int, k as int);
        let ghost before;
        let ghost step;
        let ghost run;
        proof {
            assert(holds_depth(trace@[depth as int]@, a, b, depth - 1));
            lemma_way_back(table@, a, b, depth as int, x as int, y as int);
        }
        if entered_from_above(table, depth as isize, k) {
            let prev_x: usize = lookup(table, k + 1);
            proof {
                before = path(a, b, depth - 1, k + 1);
                run = equal_run(a, prev_x as int, x as int);
            }
            emit_run(&mut acc, old, prev_x, x);
            y = y - (x - prev_x) - 1;
            x = prev_x;
            proof {
                step = EditView { op: EditOp::Insert, line: b[y as int] };
                assert(new@[y as int]@ == b[y as int]);
            }
            emit(&mut acc, EditOp::Insert, &new[y]);
        } else {
            let prev_x: usize = lookup(table, k - 1);
            proof {
                before = path(a, b, depth - 1, k - 1);
                run = equal_run(a, prev_x + 1, x as int);
            }
            emit_run(&mut acc, old, prev_x + 1, x);
            y = y - (x - prev_x - 1);
            x = prev_x;
            proof {
                step = EditView { op: EditOp::Delete, line: a[x as int] };
                assert(old@[x as int]@ == a[x as int]);
            }
            emit(&mut acc, EditOp::Delete, &old[x]);
        }
        depth -= 1;
        proof {
            assert(here == before.push(step) + run);
            assert(acc.deep_view().reverse() == seq![step] + (run + rest));
            lemma_regroup(before, step, run, rest);
            assert(before == path(a, b, depth as int, x - y));
        }
    }
    proof {
        lemma_path_unfold(a, b, 0, 0);
        lemma_reach_unfold(a, b, 0, 0);
        lemma_snake(a, b, 0, 0);
    }
    while x > 0 && y > 0 && old[x - 1] == new[y - 1]
        invariant
            a == old.deep_view(),
            b == new.deep_view(),
            x == y,
            x <= old.len(),
            y <= new.len(),
            forall|i: int| 0 <= i < x ==> a[i] == b[i],
            full == equal_run(a, 0, x as int) + acc.deep_view().reverse(),
        decreases x,
    {
        let ghost run = equal_run(a, 0, x as int);
        let ghost tail = acc.deep_view().reverse();
        x -= 1;
        y -= 1;
        emit(&mut acc, EditOp::Equal, &old[x]);
        proof {
            let eq = EditView { op: EditOp::Equal, line: a[x as int] };
            assert(run == equal_run(a, 0, x as int).push(eq));
            assert(run + tail == equal_run(a, 0, x as int) + (seq![eq] + tail));
        }
    }
    proof {
        assert(x == 0) by {
            if x > 0 {
                assert(a[x - 1] == b[x - 1]);
            }
        }
        assert(equal_run(a, 0, 0) + acc.deep_view().reverse() == acc.deep_view().reverse());
        assert(full.reverse().reverse() == full);
    }
    reversed(acc)
}

/// Moving one step and a run from the end of one script to the front of the
/// next leaves their concatenation as it was.
proof fn lemma_regroup(
    before: Seq<EditView>,
    step: EditView,
    run: Seq<EditView>,
    rest: Seq<EditView>,
)
    ensures
        (before.push(step) + run) + rest == before + (seq![step] + (run + rest)),
{
}

} // verus!
