//! Edit scripts and what they mean.
//!
//! A script is read from left to right.  `Equal` copies one line of the old
//! text to the new text, `Delete` drops one line of the old text, and `Insert`
//! adds one line to the new text.

use vstd::prelude::*;

verus! {

/// A text, as the sequence of its lines.
pub type Text = Seq<Seq<char>>;

/// The kind of a single step of an edit script.
#[derive(Clone, Copy, Debug, PartialEq, Eq, Structural)]
pub enum EditOp {
    Equal,
    Delete,
    Insert,
}

/// One step of an edit script, as a mathematical value.
pub struct EditView {
    pub op: EditOp,
    pub line: Seq<char>,
}

/// One step of an edit script together with the line it is about.
#[derive(Debug, PartialEq, Eq)]
pub struct EditRecord {
    pub op: EditOp,
    pub line: String,
}

impl Clone for EditRecord {
    fn clone(&self) -> (copy: Self)
        ensures
            copy@ == self@,
    {
        EditRecord { op: self.op, line: self.line.clone() }
    }
}

impl View for EditRecord {
    type V = EditView;

    open spec fn view(&self) -> EditView {
        EditView { op: self.op, line: self.line@ }
    }
}

impl DeepView for EditRecord {
    type V = EditView;

    open spec fn deep_view(&self) -> EditView {
        self@
    }
}

impl EditOp {
    /// The number that stands for this operation in the external encoding.
    pub open spec fn spec_tag(self) -> u32 {
        match self {
            EditOp::Equal => 0,
            EditOp::Delete => 1,
            EditOp::Insert => 2,
        }
    }

    /// The number that stands for this operation in the external encoding:
    /// 0 for `Equal`, 1 for `Delete`, 2 for `Insert`.
    #[verifier::when_used_as_spec(spec_tag)]
    pub fn tag(self) -> (t: u32)
        ensures
            t == self.spec_tag(),
    {
        match self {
            EditOp::Equal => 0,
            EditOp::Delete => 1,
            EditOp::Insert => 2,
        }
    }

    /// Decodes an operation tag.  Tags other than 0, 1 and 2 stand for no
    /// operation.
    pub fn from_tag(tag: u32) -> (op: Option<EditOp>)
        ensures
            tag > 2 <==> op is None,
            op matches Some(o) ==> o.spec_tag() == tag,
    {
        if tag == 0 {
            Some(EditOp::Equal)
        } else if tag == 1 {
            Some(EditOp::Delete)
        } else if tag == 2 {
            Some(EditOp::Insert)
        } else {
            None
        }
    }
}

/// The lines of the old text that a script walks over: those of its `Equal`
/// and `Delete` steps, in order.
pub open spec fn consumed(s: Seq<EditView>) -> Text
    decreases s.len(),
{
    if s.len() == 0 {
        Seq::empty()
    } else if s.last().op == EditOp::Insert {
        consumed(s.drop_last())
    } else {
        consumed(s.drop_last()).push(s.last().line)
    }
}

/// The lines of the new text that a script writes: those of its `Equal` and
/// `Insert` steps, in order.
pub open spec fn produced(s: Seq<EditView>) -> Text
    decreases s.len(),
{
    if s.len() == 0 {
        Seq::empty()
    } else if s.last().op == EditOp::Delete {
        produced(s.drop_last())
    } else {
        produced(s.drop_last()).push(s.last().line)
    }
}

/// The number of steps of a script that are not `Equal`.
pub open spec fn cost(s: Seq<EditView>) -> nat
    decreases s.len(),
{
    if s.len() == 0 {
        0
    } else if s.last().op == EditOp::Equal {
        cost(s.drop_last())
    } else {
        cost(s.drop_last()) + 1
    }
}

/// `s` is an edit script from `a` to `b`: it walks over exactly the lines of
/// `a` and writes exactly the lines of `b`.
pub open spec fn rewrites(s: Seq<EditView>, a: Text, b: Text) -> bool {
    consumed(s) == a && produced(s) == b
}

/// What the three measures of a script are once one more step is appended.
pub proof fn lemma_push_step(s: Seq<EditView>, e: EditView)
    ensures
        consumed(s.push(e)) == if e.op == EditOp::Insert {
            consumed(s)
        } else {
            consumed(s).push(e.line)
        },
        produced(s.push(e)) == if e.op == EditOp::Delete {
            produced(s)
        } else {
            produced(s).push(e.line)
        },
        cost(s.push(e)) == if e.op == EditOp::Equal {
            cost(s)
        } else {
            cost(s) + 1
        },
{
    assert(s.push(e).drop_last() == s);
}

/// The three measures of a concatenation of two scripts.
pub proof fn lemma_concat(s: Seq<EditView>, t: Seq<EditView>)
    ensures
        consumed(s + t) == consumed(s) + consumed(t),
        produced(s + t) == produced(s) + produced(t),
        cost(s + t) == cost(s) + cost(t),
    decreases t.len(),
{
    if t.len() == 0 {
        assert(s + t == s);
        assert(consumed(s) + consumed(t) == consumed(s));
        assert(produced(s) + produced(t) == produced(s));
    } else {
        let e = t.last();
        let t0 = t.drop_last();
        lemma_concat(s, t0);
        assert(s + t == (s + t0).push(e));
        assert(t == t0.push(e));
        lemma_push_step(s + t0, e);
        lemma_push_step(t0, e);
        assert((consumed(s) + consumed(t0)).push(e.line) == consumed(s) + consumed(t0).push(
            e.line,
        ));
        assert((produced(s) + produced(t0)).push(e.line) == produced(s) + produced(t0).push(
            e.line,
        ));
    }
}

} // verus!
