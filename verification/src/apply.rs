//! Replaying an edit script against the old text.

use crate::script::{consumed, produced, EditOp, EditRecord, EditView, Text};
use vstd::prelude::*;

verus! {

/// Why a script could not be replayed.
#[derive(Clone, Copy, Debug, PartialEq, Eq, Structural)]
pub enum ScriptError {
    /// The step at index `at` is an `Equal`, but every line of the old text
    /// had already been walked over.
    Malformed { at: usize },
}

/// The position of the cursor in the old text after the steps of `s`.
pub open spec fn cursor(s: Seq<EditView>) -> nat {
    consumed(s).len()
}

/// Step `i` of `s` asks to copy a line of `a` that is not there.
pub open spec fn stuck_at(a: Text, s: Seq<EditView>, i: int) -> bool {
    0 <= i < s.len() && s[i].op == EditOp::Equal && cursor(s.take(i)) >= a.len()
}

/// Every `Equal` step of `s` finds a line of `a` under the cursor.
pub open spec fn replayable(a: Text, s: Seq<EditView>) -> bool {
    forall|i: int| !stuck_at(a, s, i)
}

/// The text written by replaying `s` against `a`: `Equal` copies the line of
/// `a` under the cursor and moves the cursor on, `Insert` writes the line it
/// carries, `Delete` moves the cursor on.
pub open spec fn replayed(a: Text, s: Seq<EditView>) -> Text
    decreases s.len(),
{
    if s.len() == 0 {
        Seq::empty()
    } else {
        let before = s.drop_last();
        match s.last().op {
            EditOp::Equal => replayed(a, before).push(a[cursor(before) as int]),
            EditOp::Insert => replayed(a, before).push(s.last().line),
            EditOp::Delete => replayed(a, before),
        }
    }
}

/// The result of replaying `s` against `a`, if `s` can be replayed.
pub open spec fn replay(a: Text, s: Seq<EditView>) -> Option<Text> {
    if replayable(a, s) {
        Some(replayed(a, s))
    } else {
        None
    }
}

/// The cursor never runs ahead of the number of steps taken.
pub proof fn lemma_cursor_bound(s: Seq<EditView>)
    ensures
        cursor(s) <= s.len(),
    decreases s.len(),
{
    if s.len() > 0 {
        lemma_cursor_bound(s.drop_last());
    }
}

/// Replays `records` against `old_lines`.
///
/// Fails at the first `Equal` step that finds the old text used up, and
/// otherwise returns the text that the script writes.
pub fn apply_diff(old_lines: &[String], records: &[EditRecord]) -> (result: Result<
    Vec<String>,
    ScriptError,
>)
    ensures
        match result {
            Ok(lines) => replay(old_lines.deep_view(), records.deep_view()) == Some(
                lines.deep_view(),
            ),
            Err(ScriptError::Malformed { at }) => {
                &&& stuck_at(old_lines.deep_view(), records.deep_view(), at as int)
                &&& forall|i: int| 0 <= i < at ==> !stuck_at(
                    old_lines.deep_view(),
                    records.deep_view(),
                    i,
                )
            },
        },
{
    let ghost a = old_lines.deep_view();
    let ghost s = records.deep_view();
    let mut out: Vec<String> = Vec::new();
    let mut old_idx: usize = 0;
    let mut i: usize = 0;
    assert(s.take(0) == Seq::<EditView>::empty());
    assert(out.deep_view() == Seq::<Seq<char>>::empty());
    while i < records.len()
        invariant
            0 <= i <= records.len(),
            a == old_lines.deep_view(),
            s == records.deep_view(),
            s.len() == records@.len(),
            old_idx == cursor(s.take(i as int)),
            out.deep_view() == replayed(a, s.take(i as int)),
            forall|j: int| 0 <= j < i ==> !stuck_at(a, s, j),
        decreases records.len() - i,
    {
        let ghost before = s.take(i as int);
        let ghost after = s.take(i + 1);
        let ghost out_before = out.deep_view();
        proof {
            assert(after.drop_last() == before);
            assert(after.last() == s[i as int]);
            assert(s[i as int] == records@[i as int]@);
            lemma_cursor_bound(before);
        }
        let rec = &records[i];
        match rec.op {
            EditOp::Equal => {
                if old_idx < old_lines.len() {
                    out.push(old_lines[old_idx].clone());
                    proof {
                        assert(out.deep_view() == out_before.push(a[old_idx as int]));
                    }
                    old_idx += 1;
                } else {
                    return Err(ScriptError::Malformed { at: i });
                }
            },
            EditOp::Insert => {
                out.push(rec.line.clone());
                proof {
                    assert(out.deep_view() == out_before.push(s[i as int].line));
                }
            },
            EditOp::Delete => {
                old_idx += 1;
            },
        }
        i += 1;
    }
    proof {
        assert(s.take(i as int) == s);
        assert forall|j: int| !stuck_at(a, s, j) by {}
    }
    Ok(out)
}

/// A script whose walked-over lines are exactly those of `a` can be replayed
/// against `a`, and the replay writes what the script says it writes.
pub proof fn lemma_replay_writes_produced(a: Text, s: Seq<EditView>)
    requires
        consumed(s) == a,
    ensures
        replay(a, s) == Some(produced(s)),
{
    lemma_replayed_steps(a, s, s.len() as int);
    assert(s.take(s.len() as int) == s);
    assert forall|i: int| !stuck_at(a, s, i) by {
        if 0 <= i < s.len() {
            lemma_walks_prefix(a, s, i);
        }
    }
}

/// Along a script that walks over `a`, each prefix has walked over a prefix
/// of `a`, and a step that walks on carries the line under the cursor.
proof fn lemma_walks_prefix(a: Text, s: Seq<EditView>, i: int)
    requires
        consumed(s) == a,
        0 <= i <= s.len(),
    ensures
        cursor(s.take(i)) <= a.len(),
        consumed(s.take(i)) == a.take(cursor(s.take(i)) as int),
        i < s.len() && s[i].op != EditOp::Insert ==> cursor(s.take(i)) < a.len() && a[cursor(
            s.take(i),
        ) as int] == s[i].line,
    decreases s.len() - i,
{
    if i == s.len() {
        assert(s.take(i) == s);
        assert(a.take(a.len() as int) == a);
    } else {
        lemma_walks_prefix(a, s, i + 1);
        let p = s.take(i);
        let q = s.take(i + 1);
        assert(q.drop_last() == p);
        assert(q.last() == s[i]);
        let c = cursor(p) as int;
        if s[i].op != EditOp::Insert {
            assert(consumed(q) == consumed(p).push(s[i].line));
            assert(consumed(q) == a.take(c + 1));
            assert(a.take(c + 1)[c] == s[i].line);
            assert(consumed(p) == consumed(q).drop_last());
            assert(a.take(c + 1).drop_last() == a.take(c));
        }
    }
}

/// Replay and the script agree on what each prefix writes.
proof fn lemma_replayed_steps(a: Text, s: Seq<EditView>, i: int)
    requires
        consumed(s) == a,
        0 <= i <= s.len(),
    ensures
        replayed(a, s.take(i)) == produced(s.take(i)),
    decreases i,
{
    if i > 0 {
        lemma_replayed_steps(a, s, i - 1);
        lemma_walks_prefix(a, s, i - 1);
        assert(s.take(i).drop_last() == s.take(i - 1));
        assert(s.take(i).last() == s[i - 1]);
    }
}

} // verus!
