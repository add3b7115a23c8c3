use vstd::prelude::*;

verus! {

/// A place in the source text: a 1-based line and column, and a byte offset.
#[derive(Debug, Clone, Copy, PartialEq, Eq, Structural)]
pub struct Position {
    pub line: usize,
    pub col: usize,
    pub pos: usize,
}

impl Position {
    pub fn new(line: usize, col: usize, pos: usize) -> (p: Self)
        ensures
            p == (Position { line, col, pos }),
    {
        Self { line, col, pos }
    }
}

/// The stretch of source text between two positions, with its length in bytes.
#[derive(Debug, Clone, Copy, PartialEq, Eq, Structural)]
pub struct Span {
    pub start: Position,
    pub end: Position,
    pub len: usize,
}

impl Span {
    /// The span from `start` to `end`; its length is the byte distance between them.
    pub fn new(start: Position, end: Position) -> (s: Self)
        requires
            start.pos <= end.pos,
        ensures
            s == (Span { start, end, len: (end.pos - start.pos) as usize }),
    {
        Self { start, end, len: end.pos - start.pos }
    }
}

} // verus!
