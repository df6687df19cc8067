//! Plain protocol-facing value types.
//!
//! The crate does not speak the wire protocol itself; these mirror the few
//! position and diagnostic shapes the logic needs, as plain data.

use vstd::prelude::*;

verus! {

/// A zero-based line / column position.
#[derive(Clone, Copy, PartialEq, Eq, Structural, Debug)]
pub struct Position {
    pub line: u32,
    pub character: u32,
}

/// A half-open text range between two positions.
#[derive(Clone, Copy, PartialEq, Eq, Structural, Debug)]
pub struct Range {
    pub start: Position,
    pub end: Position,
}

pub fn make_range(start_line: u32, start_col: u32, end_line: u32, end_col: u32) -> (r: Range)
    ensures
        r.start.line == start_line,
        r.start.character == start_col,
        r.end.line == end_line,
        r.end.character == end_col,
{
    Range {
        start: Position { line: start_line, character: start_col },
        end: Position { line: end_line, character: end_col },
    }
}

#[derive(Clone, Copy, PartialEq, Eq, Structural, Debug)]
pub enum Severity {
    Error,
    Warning,
    Information,
    Hint,
}

/// One reported problem in a document.
#[derive(Clone, Debug)]
pub struct Diagnostic {
    pub range: Range,
    pub severity: Severity,
    /// Machine-readable code; empty when the diagnostic carries none.
    pub code: String,
    pub message: String,
}

/// One edit of a text document: replace `range` with `new_text`.
#[derive(Clone, Debug)]
pub struct TextEdit {
    pub range: Range,
    pub new_text: String,
}

} // verus!
