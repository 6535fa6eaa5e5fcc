//! What holds of every script that the search yields.

use crate::apply::{lemma_replay_writes_produced, replay};
use crate::distance::{diff_script, edit_distance, lemma_finished_at_distance, lemma_first_finish, lemma_no_cheaper_script};
use crate::graph::{finished_at, on_band};
use crate::path::{delete_run, equal_run, insert_run, lemma_path_rewrites};
use crate::script::{consumed, cost, produced, rewrites, EditOp, EditView, Text};
use vstd::prelude::*;

verus! {

/// Below the edit distance the search records no point at or beyond the end
/// of both texts.
pub proof fn lemma_unfinished_before_distance(a: Text, b: Text, d: int, k: int)
    requires
        0 <= d < edit_distance(a, b),
        on_band(d, k),
    ensures
        !finished_at(a, b, d, k),
    decreases d,
{
    if finished_at(a, b, d, k) {
        assert forall|e: int, j: int| 0 <= e < d && on_band(e, j) implies !finished_at(
            a,
            b,
            e,
            j,
        ) by {
            lemma_unfinished_before_distance(a, b, e, j);
        }
        lemma_first_finish(a, b, d, k);
    }
}

/// The script that the search yields is an edit script from the old text to
/// the new one, and its cost is their edit distance.
pub proof fn lemma_diff_script_rewrites(a: Text, b: Text)
    ensures
        rewrites(diff_script(a, b), a, b),
        cost(diff_script(a, b)) == edit_distance(a, b),
{
    let d = edit_distance(a, b) as int;
    let k = a.len() - b.len();
    lemma_finished_at_distance(a, b);
    assert forall|e: int, j: int| 0 <= e < d && on_band(e, j) implies !finished_at(a, b, e, j) by {
        lemma_unfinished_before_distance(a, b, e, j);
    }
    lemma_first_finish(a, b, d, k);
    lemma_path_rewrites(a, b, d, k);
    assert(a.take(a.len() as int) == a);
    assert(b.take(b.len() as int) == b);
}

/// Round trip: replaying the script that the search yields for two texts
/// against the old text gives the new text.
pub proof fn lemma_round_trip(a: Text, b: Text)
    ensures
        replay(a, diff_script(a, b)) == Some(b),
{
    lemma_diff_script_rewrites(a, b);
    lemma_replay_writes_produced(a, diff_script(a, b));
}

/// Minimality: the script that the search yields has as many steps other
/// than `Equal` as the edit distance of the two texts, and no edit script
/// between them has fewer.
pub proof fn lemma_minimal(a: Text, b: Text, other: Seq<EditView>)
    requires
        rewrites(other, a, b),
    ensures
        cost(diff_script(a, b)) == edit_distance(a, b),
        cost(diff_script(a, b)) <= cost(other),
{
    lemma_diff_script_rewrites(a, b);
    lemma_no_cheaper_script(a, b, other);
}

/// A text is at distance zero from itself.
pub proof fn lemma_distance_to_self(a: Text)
    ensures
        edit_distance(a, a) == 0,
    decreases a.len(),
{
    if a.len() > 0 {
        lemma_distance_to_self(a.drop_last());
    }
}

/// A script without cost walks over the text that it writes, one `Equal`
/// step for each line.
pub proof fn lemma_free_script(s: Seq<EditView>)
    requires
        cost(s) == 0,
    ensures
        s.len() == consumed(s).len(),
        forall|i: int|
            0 <= i < s.len() ==> s[i] == (EditView { op: EditOp::Equal, line: consumed(s)[i] }),
    decreases s.len(),
{
    if s.len() > 0 {
        let s0 = s.drop_last();
        lemma_free_script(s0);
        assert forall|i: int| 0 <= i < s.len() implies s[i] == (EditView {
            op: EditOp::Equal,
            line: consumed(s)[i],
        }) by {
            if i < s0.len() {
                assert(s[i] == s0[i]);
                assert(consumed(s)[i] == consumed(s0)[i]);
            }
        }
    }
}

/// Identity: for a text and itself the search yields one `Equal` step for
/// each line, in order, and nothing else.
pub proof fn lemma_identity(a: Text)
    ensures
        diff_script(a, a) == equal_run(a, 0, a.len() as int),
{
    lemma_diff_script_rewrites(a, a);
    lemma_distance_to_self(a);
    lemma_free_script(diff_script(a, a));
    assert(diff_script(a, a) =~= equal_run(a, 0, a.len() as int));
}

/// A script that walks over no line consists of one `Insert` step for each
/// line that it writes.
pub proof fn lemma_only_inserts(s: Seq<EditView>)
    requires
        consumed(s).len() == 0,
    ensures
        s.len() == produced(s).len(),
        forall|i: int|
            0 <= i < s.len() ==> s[i] == (EditView { op: EditOp::Insert, line: produced(s)[i] }),
    decreases s.len(),
{
    if s.len() > 0 {
        let s0 = s.drop_last();
        lemma_only_inserts(s0);
        assert forall|i: int| 0 <= i < s.len() implies s[i] == (EditView {
            op: EditOp::Insert,
            line: produced(s)[i],
        }) by {
            if i < s0.len() {
                assert(s[i] == s0[i]);
                assert(produced(s)[i] == produced(s0)[i]);
            }
        }
    }
}

/// A script that writes no line consists of one `Delete` step for each line
/// that it walks over.
pub proof fn lemma_only_deletes(s: Seq<EditView>)
    requires
        produced(s).len() == 0,
    ensures
        s.len() == consumed(s).len(),
        forall|i: int|
            0 <= i < s.len() ==> s[i] == (EditView { op: EditOp::Delete, line: consumed(s)[i] }),
    decreases s.len(),
{
    if s.len() > 0 {
        let s0 = s.drop_last();
        lemma_only_deletes(s0);
        assert forall|i: int| 0 <= i < s.len() implies s[i] == (EditView {
            op: EditOp::Delete,
            line: consumed(s)[i],
        }) by {
            if i < s0.len() {
                assert(s[i] == s0[i]);
                assert(consumed(s)[i] == consumed(s0)[i]);
            }
        }
    }
}

/// From the empty text the search yields one `Insert` step for each line of
/// the new text, in order, and nothing else.
pub proof fn lemma_from_empty(b: Text)
    ensures
        diff_script(Seq::empty(), b) == insert_run(b),
{
    lemma_diff_script_rewrites(Seq::empty(), b);
    lemma_only_inserts(diff_script(Seq::empty(), b));
    assert(diff_script(Seq::empty(), b) =~= insert_run(b));
}

/// To the empty text the search yields one `Delete` step for each line of
/// the old text, in order, and nothing else.  Between two empty texts this
/// is the empty script.
pub proof fn lemma_to_empty(a: Text)
    ensures
        diff_script(a, Seq::empty()) == delete_run(a),
        diff_script(Seq::empty(), Seq::empty()) == Seq::<EditView>::empty(),
{
    lemma_diff_script_rewrites(a, Seq::empty());
    lemma_only_deletes(diff_script(a, Seq::empty()));
    assert(diff_script(a, Seq::empty()) =~= delete_run(a));
    lemma_diff_script_rewrites(Seq::empty(), Seq::empty());
    lemma_only_deletes(diff_script(Seq::empty(), Seq::empty()));
    assert(diff_script(Seq::empty(), Seq::empty()) =~= Seq::<EditView>::empty());
}

} // verus!
