//! Line-level differences between two texts.
//!
//! [`diff_lines`] computes a shortest edit script that turns one sequence of
//! lines into another, and [`apply_diff`] replays such a script against the
//! first sequence to obtain the second.

pub mod script;
pub mod apply;
pub mod graph;
pub mod path;
pub mod distance;
pub mod table;
pub mod backtrack;
pub mod search;
pub mod laws;

pub use apply::{apply_diff, ScriptError};
pub use backtrack::backtrack;
pub use search::{diff_lines, myers_diff, DiffError};
pub use script::{EditOp, EditRecord, EditView};
