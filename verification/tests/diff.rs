use line_diff::{apply_diff, backtrack, diff_lines, myers_diff, EditOp, EditRecord};
use std::collections::HashMap;

fn text(lines: &[&str]) -> Vec<String> {
    lines.iter().map(|l| l.to_string()).collect()
}

fn step(op: EditOp, line: &str) -> EditRecord {
    EditRecord { op, line: line.to_string() }
}

fn changes(script: &[EditRecord]) -> usize {
    script.iter().filter(|r| r.op != EditOp::Equal).count()
}

fn count(script: &[EditRecord], op: EditOp) -> usize {
    script.iter().filter(|r| r.op == op).count()
}

/// Edit distance by the textbook table, insertions and deletions only.
fn reference_distance(a: &[String], b: &[String]) -> usize {
    let mut table = vec![vec![0usize; b.len() + 1]; a.len() + 1];
    for i in 0..=a.len() {
        for j in 0..=b.len() {
            table[i][j] = if i == 0 {
                j
            } else if j == 0 {
                i
            } else {
                let mut best = table[i - 1][j].min(table[i][j - 1]) + 1;
                if a[i - 1] == b[j - 1] {
                    best = best.min(table[i - 1][j - 1]);
                }
                best
            };
        }
    }
    table[a.len()][b.len()]
}

/// The lines an edit script walks over and the lines it writes.
fn sides(script: &[EditRecord]) -> (Vec<String>, Vec<String>) {
    let mut from = Vec::new();
    let mut to = Vec::new();
    for r in script {
        match r.op {
            EditOp::Equal => {
                from.push(r.line.clone());
                to.push(r.line.clone());
            }
            EditOp::Delete => from.push(r.line.clone()),
            EditOp::Insert => to.push(r.line.clone()),
        }
    }
    (from, to)
}

/// Every text over the letters "a" and "b" with at most `max` lines.
fn small_texts(max: usize) -> Vec<Vec<String>> {
    let mut all: Vec<Vec<String>> = vec![Vec::new()];
    let mut last: Vec<Vec<String>> = vec![Vec::new()];
    for _ in 0..max {
        let mut next = Vec::new();
        for t in &last {
            for letter in ["a", "b"] {
                let mut longer = t.clone();
                longer.push(letter.to_string());
                next.push(longer);
            }
        }
        all.extend(next.iter().cloned());
        last = next;
    }
    all
}

#[test]
fn replaces_the_middle_line() {
    let old = text(&["a", "b", "c"]);
    let new = text(&["a", "x", "c"]);
    let script = diff_lines(&old, &new).unwrap();
    assert_eq!(
        script,
        vec![
            step(EditOp::Equal, "a"),
            step(EditOp::Delete, "b"),
            step(EditOp::Insert, "x"),
            step(EditOp::Equal, "c"),
        ]
    );
    assert_eq!(apply_diff(&old, &script), Ok(new));
}

#[test]
fn swaps_two_lines_with_two_changes() {
    let old = text(&["a", "b"]);
    let new = text(&["b", "a"]);
    let script = diff_lines(&old, &new).unwrap();
    assert_eq!(changes(&script), 2);
    assert_eq!(count(&script, EditOp::Delete), 1);
    assert_eq!(count(&script, EditOp::Insert), 1);
    assert_eq!(
        script,
        vec![
            step(EditOp::Delete, "a"),
            step(EditOp::Equal, "b"),
            step(EditOp::Insert, "a"),
        ]
    );
    assert_eq!(apply_diff(&old, &script), Ok(new));
}

#[test]
fn round_trip_on_a_longer_text() {
    let old = text(&["fn main() {", "    let x = 1;", "    let y = 2;", "    print(x);", "}"]);
    let new = text(&["fn main() {", "    let y = 2;", "    let z = 3;", "    print(y);", "    print(z);", "}"]);
    let script = diff_lines(&old, &new).unwrap();
    assert_eq!(apply_diff(&old, &script), Ok(new.clone()));
    assert_eq!(sides(&script), (old.clone(), new.clone()));
    assert_eq!(changes(&script), reference_distance(&old, &new));
    assert_eq!(changes(&script), 5);
}

#[test]
fn round_trip_on_all_small_texts() {
    let texts = small_texts(4);
    for old in &texts {
        for new in &texts {
            let script = diff_lines(old, new).unwrap();
            assert_eq!(apply_diff(old, &script), Ok(new.clone()));
            assert_eq!(sides(&script), (old.clone(), new.clone()));
        }
    }
}

#[test]
fn cost_is_the_edit_distance_on_all_small_texts() {
    let texts = small_texts(4);
    for old in &texts {
        for new in &texts {
            let script = diff_lines(old, new).unwrap();
            assert_eq!(changes(&script), reference_distance(old, new));
        }
    }
}

#[test]
fn a_text_against_itself_is_all_equal() {
    for lines in [
        text(&[]),
        text(&["only"]),
        text(&["a", "b", "c"]),
        text(&["same", "same", "same", "same"]),
    ] {
        let script = diff_lines(&lines, &lines).unwrap();
        assert_eq!(script.len(), lines.len());
        for (r, l) in script.iter().zip(lines.iter()) {
            assert_eq!(r.op, EditOp::Equal);
            assert_eq!(&r.line, l);
        }
    }
}

#[test]
fn from_the_empty_text_everything_is_inserted() {
    let new = text(&["x", "y", "z"]);
    let script = diff_lines(&[], &new).unwrap();
    assert_eq!(
        script,
        vec![
            step(EditOp::Insert, "x"),
            step(EditOp::Insert, "y"),
            step(EditOp::Insert, "z"),
        ]
    );
}

#[test]
fn to_the_empty_text_everything_is_deleted() {
    let old = text(&["x", "y", "z"]);
    let script = diff_lines(&old, &[]).unwrap();
    assert_eq!(
        script,
        vec![
            step(EditOp::Delete, "x"),
            step(EditOp::Delete, "y"),
            step(EditOp::Delete, "z"),
        ]
    );
}

#[test]
fn two_empty_texts_give_the_empty_script() {
    let script = diff_lines(&[], &[]).unwrap();
    assert_eq!(script, Vec::<EditRecord>::new());
    assert_eq!(apply_diff(&[], &script), Ok(Vec::<String>::new()));
}

#[test]
fn new_text_longer_than_old() {
    let old = text(&["a"]);
    let new = text(&["b", "c", "d"]);
    let script = myers_diff(&old, &new);
    assert_eq!(changes(&script), 4);
    assert_eq!(sides(&script), (old.clone(), new.clone()));
    assert_eq!(apply_diff(&old, &script), Ok(new));
}

#[test]
fn deletion_comes_before_insertion_on_a_tie() {
    let old = text(&["p"]);
    let new = text(&["q"]);
    let script = myers_diff(&old, &new);
    assert_eq!(script, vec![step(EditOp::Delete, "p"), step(EditOp::Insert, "q")]);
}

#[test]
fn common_suffix_and_prefix_are_kept() {
    let old = text(&["h", "1", "2", "t"]);
    let new = text(&["h", "3", "t"]);
    let script = myers_diff(&old, &new);
    assert_eq!(script.first(), Some(&step(EditOp::Equal, "h")));
    assert_eq!(script.last(), Some(&step(EditOp::Equal, "t")));
    assert_eq!(changes(&script), 3);
    assert_eq!(apply_diff(&old, &script), Ok(new));
}

#[test]
fn backtrack_reads_the_script_out_of_a_trace() {
    let old = text(&["a", "b", "c"]);
    let new = text(&["a", "x", "c"]);
    let mut depth0: HashMap<isize, usize> = HashMap::new();
    depth0.insert(1, 0);
    depth0.insert(0, 1);
    let mut depth1 = depth0.clone();
    depth1.insert(-1, 1);
    depth1.insert(1, 2);
    let mut depth2 = depth1.clone();
    depth2.insert(-2, 1);
    depth2.insert(0, 3);
    let trace = vec![depth0, depth1, depth2];
    let script = backtrack(&old, &new, &trace, 2);
    assert_eq!(
        script,
        vec![
            step(EditOp::Equal, "a"),
            step(EditOp::Delete, "b"),
            step(EditOp::Insert, "x"),
            step(EditOp::Equal, "c"),
        ]
    );
}

#[test]
fn backtrack_at_depth_zero_copies_every_line() {
    let lines = text(&["one", "two"]);
    let mut depth0: HashMap<isize, usize> = HashMap::new();
    depth0.insert(1, 0);
    depth0.insert(0, 2);
    let script = backtrack(&lines, &lines, &vec![depth0], 0);
    assert_eq!(script, vec![step(EditOp::Equal, "one"), step(EditOp::Equal, "two")]);
}
