//! Positions in the source text of a statechart.

use vstd::prelude::*;

verus! {

/// A line and a column of a source text.
#[derive(Clone, Copy, Debug, PartialEq, Eq)]
pub struct Point {
    pub line: usize,
    pub column: usize,
}

impl Default for Point {
    /// The first line, before its first column.
    fn default() -> (p: Point)
        ensures
            p == (Point { line: 1, column: 0 }),
    {
        Point { line: 1, column: 0 }
    }
}

/// The span of source text that a node was read from.
#[derive(Clone, Copy, Debug, PartialEq, Eq)]
pub struct Location {
    pub start: Point,
    pub end: Point,
    /// The index of the source text, where there are several.
    pub source: Option<usize>,
}

impl Location {
    /// The location of a node that carries none.
    pub open spec fn unknown() -> Location {
        Location {
            start: Point { line: 1, column: 0 },
            end: Point { line: 1, column: 0 },
            source: None,
        }
    }
}

impl Default for Location {
    fn default() -> (loc: Location)
        ensures
            loc == Location::unknown(),
    {
        Location { start: Point::default(), end: Point::default(), source: None }
    }
}

} // verus!
