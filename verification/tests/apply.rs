use line_diff::{apply_diff, EditOp, EditRecord, ScriptError};

fn lines(ls: &[&str]) -> Vec<String> {
    ls.iter().map(|l| l.to_string()).collect()
}

fn rec(op: EditOp, line: &str) -> EditRecord {
    EditRecord { op, line: line.to_string() }
}

#[test]
fn apply_copies_skips_and_adds() {
    let old = lines(&["a", "b", "c"]);
    let script = vec![
        rec(EditOp::Equal, "a"),
        rec(EditOp::Delete, "b"),
        rec(EditOp::Insert, "x"),
        rec(EditOp::Equal, "c"),
    ];
    assert_eq!(apply_diff(&old, &script), Ok(lines(&["a", "x", "c"])));
}

#[test]
fn apply_of_the_empty_script_writes_nothing() {
    assert_eq!(apply_diff(&lines(&["a", "b"]), &[]), Ok(Vec::<String>::new()));
}

#[test]
fn equal_copies_the_line_under_the_cursor() {
    let old = lines(&["kept"]);
    let script = vec![rec(EditOp::Equal, "something else")];
    assert_eq!(apply_diff(&old, &script), Ok(lines(&["kept"])));
}

#[test]
fn equal_past_the_end_is_refused() {
    let old = lines(&["a"]);
    let script = vec![rec(EditOp::Equal, "a"), rec(EditOp::Insert, "n"), rec(EditOp::Equal, "b")];
    assert_eq!(apply_diff(&old, &script), Err(ScriptError::Malformed { at: 2 }));
}

#[test]
fn equal_on_the_empty_text_is_refused() {
    let script = vec![rec(EditOp::Equal, "a")];
    assert_eq!(apply_diff(&[], &script), Err(ScriptError::Malformed { at: 0 }));
}

#[test]
fn the_first_offending_step_is_reported() {
    let old = lines(&["a", "b"]);
    let script = vec![
        rec(EditOp::Delete, "a"),
        rec(EditOp::Delete, "b"),
        rec(EditOp::Equal, "c"),
        rec(EditOp::Equal, "d"),
    ];
    assert_eq!(apply_diff(&old, &script), Err(ScriptError::Malformed { at: 2 }));
}

#[test]
fn delete_past_the_end_only_moves_the_cursor() {
    let script = vec![rec(EditOp::Delete, "gone"), rec(EditOp::Insert, "new")];
    assert_eq!(apply_diff(&[], &script), Ok(lines(&["new"])));
}

#[test]
fn lines_left_over_are_dropped() {
    let old = lines(&["a", "b", "c"]);
    let script = vec![rec(EditOp::Equal, "a")];
    assert_eq!(apply_diff(&old, &script), Ok(lines(&["a"])));
}

#[test]
fn tags_are_zero_one_two() {
    assert_eq!(EditOp::Equal.tag(), 0);
    assert_eq!(EditOp::Delete.tag(), 1);
    assert_eq!(EditOp::Insert.tag(), 2);
}

#[test]
fn tags_decode_to_their_operations() {
    assert_eq!(EditOp::from_tag(0), Some(EditOp::Equal));
    assert_eq!(EditOp::from_tag(1), Some(EditOp::Delete));
    assert_eq!(EditOp::from_tag(2), Some(EditOp::Insert));
}

#[test]
fn tags_above_two_decode_to_nothing() {
    assert_eq!(EditOp::from_tag(3), None);
    assert_eq!(EditOp::from_tag(u32::MAX), None);
}
