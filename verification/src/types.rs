use vstd::prelude::*;

verus! {

/// A position in a text buffer, counted in bytes of its UTF-8 encoding.
#[derive(Debug, Default, Clone, Copy, PartialEq, Eq, Structural, PartialOrd, Ord)]
pub struct ByteOffset(pub usize);

/// How one level of indentation is written.
#[derive(Debug, Clone, Copy, PartialEq, Eq, Structural)]
pub enum IndentKind {
    Spaces,
    Tabs,
}

/// Where a cursor movement goes. `Location` is one-based (line, column).
#[derive(Debug, Clone, Copy, PartialEq, Eq, Structural)]
pub enum MoveTarget {
    Up(usize),
    Down(usize),
    Left(usize),
    Right(usize),
    Location(usize, usize),
    ByteOffset(usize),
    Start,
    End,
    StartOfLine,
    EndOfLine,
    NextWordBoundaryLeft,
    NextWordBoundaryRight,
    MatchingPair,
}

} // verus!
