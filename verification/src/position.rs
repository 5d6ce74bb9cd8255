//! Positions and spans: text addressed by line and column.

use core::cmp::Ordering;
use vstd::prelude::*;

verus! {

/// A place in a text as a pair of mathematical integers.
///
/// Lines count from 1, columns count the Unicode scalar values since the
/// start of the line, from 0.
pub struct Position {
    pub line: int,
    pub column: int,
}

impl Position {
    /// The place where a text begins.
    pub open spec fn origin() -> Position {
        Position { line: 1, column: 0 }
    }

    /// `self` comes strictly before `other`: on an earlier line, or on the
    /// same line in an earlier column.
    pub open spec fn precedes(self, other: Position) -> bool {
        self.line < other.line || (self.line == other.line && self.column < other.column)
    }

    /// `self` is `other` or comes after it.
    pub open spec fn reaches(self, other: Position) -> bool {
        !self.precedes(other)
    }

    /// The place of the scalar value that follows `c`, when `c` stands at
    /// `self`: a line feed opens the next line, anything else moves one
    /// column on.
    pub open spec fn step(self, c: char) -> Position {
        if c == '\n' {
            Position { line: self.line + 1, column: 0 }
        } else {
            Position { line: self.line, column: self.column + 1 }
        }
    }

    /// The least position that comes after `self`: one column on.
    pub open spec fn successor(self) -> Position {
        Position { line: self.line, column: self.column + 1 }
    }

    /// Both coordinates can be held in a `usize`.
    pub open spec fn fits(self) -> bool {
        0 <= self.line <= usize::MAX && 0 <= self.column <= usize::MAX
    }
}

/// Positions are totally ordered: of two positions one comes before the
/// other or they are the same, never both, and coming before carries over a
/// position in between.
pub proof fn lemma_positions_are_totally_ordered(a: Position, b: Position, c: Position)
    ensures
        !a.precedes(a),
        a.precedes(b) || a == b || b.precedes(a),
        !(a.precedes(b) && b.precedes(a)),
        a.precedes(b) && b.precedes(c) ==> a.precedes(c),
        a.precedes(b) <==> !b.precedes(a.successor()),
{
}

/// A line-column pair: `line` is 1-based, `column` is the 0-based count of
/// Unicode scalar values since the start of that line.
#[derive(Debug, Clone, Copy, PartialEq, Eq, Structural, Hash, Ord)]
pub struct LineColumn {
    pub line: usize,
    pub column: usize,
}

impl View for LineColumn {
    type V = Position;

    open spec fn view(&self) -> Position {
        Position { line: self.line as int, column: self.column as int }
    }
}

impl LineColumn {
    /// A position from its line and column.
    pub fn new(line: usize, column: usize) -> (at: LineColumn)
        ensures
            at.line == line,
            at.column == column,
    {
        LineColumn { line, column }
    }
}

impl PartialOrd for LineColumn {
    /// Positions are totally ordered by line, then by column.
    fn partial_cmp(&self, other: &LineColumn) -> (r: Option<Ordering>) {
        if self.line < other.line {
            Some(Ordering::Less)
        } else if self.line > other.line {
            Some(Ordering::Greater)
        } else if self.column < other.column {
            Some(Ordering::Less)
        } else if self.column > other.column {
            Some(Ordering::Greater)
        } else {
            Some(Ordering::Equal)
        }
    }
}

impl vstd::std_specs::cmp::PartialOrdSpecImpl for LineColumn {
    open spec fn obeys_partial_cmp_spec() -> bool {
        true
    }

    open spec fn partial_cmp_spec(&self, other: &LineColumn) -> Option<Ordering> {
        if self@.precedes(other@) {
            Some(Ordering::Less)
        } else if other@.precedes(self@) {
            Some(Ordering::Greater)
        } else {
            Some(Ordering::Equal)
        }
    }
}

/// An inclusive range of positions: both `start` and `end` address a scalar
/// value that belongs to the span, so a span covers at least one. An edit
/// over a span that starts and ends at one position is read as an insertion
/// in front of that position, not as the replacement of one scalar value.
#[derive(Debug, Clone, Copy, PartialEq, Eq, Structural, Hash)]
pub struct Span {
    pub start: LineColumn,
    pub end: LineColumn,
}

impl Span {
    /// The span does not end before it starts.
    pub open spec fn well_formed(&self) -> bool {
        !self.end@.precedes(self.start@)
    }

    /// The span covers a single position.
    pub open spec fn spec_is_point(&self) -> bool {
        self.start == self.end
    }

    /// Whether the span covers a single position.
    #[verifier::when_used_as_spec(spec_is_point)]
    pub fn is_point(&self) -> (point: bool)
        ensures
            point == self.spec_is_point(),
    {
        self.start == self.end
    }
}

} // verus!
