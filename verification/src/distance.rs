//! The edit distance of two texts, and why the search finds it.

use crate::graph::{covered, finished_at, lemma_finish_is_exact, lemma_reach_in_range, lemma_step_diagonal, lemma_step_down, lemma_step_right, on_band, reach};
use crate::path::{lemma_path_rewrites, path};
use crate::script::{consumed, cost, lemma_push_step, produced, rewrites, EditOp, EditView, Text};
use vstd::prelude::*;

verus! {

/// The smaller of two numbers.
pub open spec fn least(p: nat, q: nat) -> nat {
    if p <= q {
        p
    } else {
        q
    }
}

/// The least number of line insertions and deletions that turn `a` into `b`,
/// by the usual recurrence on the last lines of the two texts.
pub open spec fn edit_distance(a: Text, b: Text) -> nat
    decreases a.len() + b.len(),
{
    if a.len() == 0 {
        b.len()
    } else if b.len() == 0 {
        a.len()
    } else {
        let change = least(
            edit_distance(a.drop_last(), b) + 1,
            edit_distance(a, b.drop_last()) + 1,
        );
        if a.last() == b.last() {
            least(edit_distance(a.drop_last(), b.drop_last()), change)
        } else {
            change
        }
    }
}

/// An edit script from `a` to `b` that follows the recurrence of
/// [`edit_distance`].
pub open spec fn shortest_script(a: Text, b: Text) -> Seq<EditView>
    decreases a.len() + b.len(),
{
    if a.len() == 0 && b.len() == 0 {
        Seq::empty()
    } else if a.len() == 0 {
        shortest_script(a, b.drop_last()).push(EditView { op: EditOp::Insert, line: b.last() })
    } else if b.len() == 0 {
        shortest_script(a.drop_last(), b).push(EditView { op: EditOp::Delete, line: a.last() })
    } else {
        let del = edit_distance(a.drop_last(), b) + 1;
        let ins = edit_distance(a, b.drop_last()) + 1;
        if a.last() == b.last() && edit_distance(a.drop_last(), b.drop_last()) <= least(del, ins) {
            shortest_script(a.drop_last(), b.drop_last()).push(
                EditView { op: EditOp::Equal, line: a.last() },
            )
        } else if del <= ins {
            shortest_script(a.drop_last(), b).push(EditView { op: EditOp::Delete, line: a.last() })
        } else {
            shortest_script(a, b.drop_last()).push(EditView { op: EditOp::Insert, line: b.last() })
        }
    }
}

/// The edit script that the search yields for `a` and `b`: the path on which
/// it comes to the end of both texts, at the depth that equals their edit
/// distance.
pub open spec fn diff_script(a: Text, b: Text) -> Seq<EditView> {
    path(a, b, edit_distance(a, b) as int, a.len() - b.len())
}

/// The edit distance is reached by an edit script.
pub proof fn lemma_shortest_script(a: Text, b: Text)
    ensures
        rewrites(shortest_script(a, b), a, b),
        cost(shortest_script(a, b)) == edit_distance(a, b),
    decreases a.len() + b.len(),
{
    let s = shortest_script(a, b);
    if a.len() == 0 && b.len() == 0 {
        assert(a == Seq::<Seq<char>>::empty());
        assert(b == Seq::<Seq<char>>::empty());
    } else {
        let step = s.last();
        let a0 = if step.op == EditOp::Insert {
            a
        } else {
            a.drop_last()
        };
        let b0 = if step.op == EditOp::Delete {
            b
        } else {
            b.drop_last()
        };
        let s0 = shortest_script(a0, b0);
        assert(s == s0.push(step));
        lemma_shortest_script(a0, b0);
        lemma_push_step(s0, step);
        if step.op != EditOp::Insert {
            assert(a0.push(a.last()) == a);
        }
        if step.op != EditOp::Delete {
            assert(b0.push(b.last()) == b);
        }
    }
}

/// No edit script from `a` to `b` costs less than the edit distance.
pub proof fn lemma_no_cheaper_script(a: Text, b: Text, s: Seq<EditView>)
    requires
        rewrites(s, a, b),
    ensures
        edit_distance(a, b) <= cost(s),
    decreases s.len(),
{
    if s.len() > 0 {
        let s0 = s.drop_last();
        let a0 = consumed(s0);
        let b0 = produced(s0);
        lemma_no_cheaper_script(a0, b0, s0);
        if s.last().op != EditOp::Insert {
            assert(a.drop_last() == a0);
        }
        if s.last().op != EditOp::Delete {
            assert(b.drop_last() == b0);
        }
    }
}

/// The edit distance is at most the number of lines of both texts.
pub proof fn lemma_distance_bound(a: Text, b: Text)
    ensures
        edit_distance(a, b) <= a.len() + b.len(),
    decreases a.len() + b.len(),
{
    if a.len() > 0 && b.len() > 0 {
        lemma_distance_bound(a.drop_last(), b);
    }
}

/// The search keeps up with every edit script: at the depth that equals the
/// cost of a script between a prefix of `a` and a prefix of `b`, it has
/// covered the point that the two prefixes stand for.
pub proof fn lemma_script_covered(a: Text, b: Text, s: Seq<EditView>)
    requires
        consumed(s).is_prefix_of(a),
        produced(s).is_prefix_of(b),
    ensures
        covered(a, b, cost(s) as int, consumed(s).len() as int, produced(s).len() as int),
    decreases s.len(),
{
    if s.len() == 0 {
        lemma_reach_in_range(a, b, 0, 0);
    } else {
        let s0 = s.drop_last();
        let x = consumed(s0).len() as int;
        let y = produced(s0).len() as int;
        lemma_script_covered(a, b, s0);
        match s.last().op {
            EditOp::Equal => {
                assert(a[x] == consumed(s)[x]);
                assert(b[y] == produced(s)[y]);
                lemma_step_diagonal(a, b, cost(s0) as int, x, y);
            },
            EditOp::Delete => {
                lemma_step_right(a, b, cost(s0) as int, x, y);
            },
            EditOp::Insert => {
                lemma_step_down(a, b, cost(s0) as int, x, y);
            },
        }
    }
}

/// At the depth that equals the edit distance the search has come to the end
/// of both texts.
pub proof fn lemma_finished_at_distance(a: Text, b: Text)
    ensures
        on_band(edit_distance(a, b) as int, a.len() - b.len()),
        finished_at(a, b, edit_distance(a, b) as int, a.len() - b.len()),
{
    lemma_shortest_script(a, b);
    lemma_script_covered(a, b, shortest_script(a, b));
}

/// The first depth at which the search records a point at or beyond the end
/// of both texts is the edit distance, and that point is the end itself.
pub proof fn lemma_first_finish(a: Text, b: Text, d: int, k: int)
    requires
        on_band(d, k),
        finished_at(a, b, d, k),
        forall|e: int, j: int| 0 <= e < d && on_band(e, j) ==> !finished_at(a, b, e, j),
    ensures
        d == edit_distance(a, b),
        k == a.len() - b.len(),
        reach(a, b, d, k) == a.len(),
{
    lemma_finish_is_exact(a, b, d, k);
    lemma_path_rewrites(a, b, d, k);
    assert(a.take(a.len() as int) == a);
    assert(b.take(b.len() as int) == b);
    lemma_no_cheaper_script(a, b, path(a, b, d, k));
    lemma_finished_at_distance(a, b);
}

} // verus!
