//! Core of an editor-intelligence backend for a structured stylesheet
//! language: an incrementally editable text buffer with position/offset
//! conversion, a cursor-context classifier, a reference index, and a
//! shallow diagnostics scanner.

pub mod classify;
pub mod diagnostics;
pub mod document;
pub mod format;
pub mod lines;
pub mod refs;
pub mod rope_text;
pub mod strutil;
pub mod uss_data;

use vstd::prelude::*;

verus! {

/// A zero-based (line, character) pair addressing a point in a document.
#[derive(Clone, Copy, Debug, PartialEq, Eq, Structural)]
pub struct Position {
    pub line: u32,
    pub character: u32,
}

/// A span between two positions; `start` is expected to precede `end`
/// in document order (lexicographic on line, then character).
#[derive(Clone, Copy, Debug, PartialEq, Eq, Structural)]
pub struct TextRange {
    pub start: Position,
    pub end: Position,
}

/// Document order on positions: lexicographic on line, then character.
pub open spec fn pos_le(a: Position, b: Position) -> bool {
    a.line < b.line || (a.line == b.line && a.character <= b.character)
}

} // verus!
