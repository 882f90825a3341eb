use vstd::prelude::*;

verus! {

/// Tells whether a [`Position`]'s line and column count from the start of
/// the whole source buffer (absolute) or from the start of some enclosing
/// context (relative).
#[derive(Clone, Copy, Debug, Eq, PartialEq, Structural)]
pub enum PositionKind {
    /// Counted from the start of the source buffer
    Absolute,
    /// Counted from the start of an enclosing context
    Relative,
}

/// A one-indexed line and column pair addressing a character of a source
/// buffer, tagged absolute or relative.
#[derive(Clone, Copy, Debug, Eq, PartialEq, Structural)]
pub struct Position {
    /// The one-indexed line number
    pub line: usize,

    /// The one-indexed column number
    pub column: usize,

    /// Whether the line and column are absolute or relative
    pub kind: PositionKind,
}

impl Position {
    /// Creates a new absolute `Position`.
    pub fn abs(line: usize, column: usize) -> (p: Position)
        ensures
            p == (Position { line, column, kind: PositionKind::Absolute }),
    {
        Position { line, column, kind: PositionKind::Absolute }
    }

    /// Creates a new relative `Position`.
    pub fn rel(line: usize, column: usize) -> (p: Position)
        ensures
            p == (Position { line, column, kind: PositionKind::Relative }),
    {
        Position { line, column, kind: PositionKind::Relative }
    }

    /// The position reached by composing a one-indexed (line, column)
    /// offset onto this position: an offset on line 1 stays on this
    /// position's line and adds columns; an offset on a later line moves
    /// that many lines down and its column stands on its own.
    pub open spec fn spec_subposition(self, line: int, column: int) -> (int, int) {
        (
            self.line + line - 1,
            if line == 1 {
                self.column + column - 1
            } else {
                column
            },
        )
    }

    /// Composes a one-indexed (line, column) offset onto this position.
    pub fn subposition(&self, line: usize, column: usize) -> (r: Position)
        requires
            1 <= self.line,
            1 <= line,
            self.line + line - 1 <= usize::MAX,
            line == 1 ==> 1 <= self.column,
            line == 1 ==> self.column + column - 1 <= usize::MAX,
        ensures
            r.kind == self.kind,
            (r.line as int, r.column as int) == self.spec_subposition(line as int, column as int),
    {
        let column = if line == 1 {
            (self.column - 1) + column
        } else {
            column
        };
        let line = (self.line - 1) + line;
        Position { line, column, kind: self.kind }
    }
}

} // verus!
