//! Positions, ranges and locations in protocol coordinates.
//!
//! A position is a zero-based line and a zero-based column; columns count
//! UTF-16 code units, as editors do.

use vstd::prelude::*;

verus! {

/// A line and a column, both zero-based.
#[derive(Clone, Copy, Debug, PartialEq, Eq, Structural)]
pub struct Position {
    pub line: u32,
    pub character: u32,
}

/// A span of text from `start` up to, but not including, `end`.
#[derive(Clone, Copy, Debug, PartialEq, Eq, Structural)]
pub struct Range {
    pub start: Position,
    pub end: Position,
}

impl Position {
    pub fn new(line: u32, character: u32) -> (p: Position)
        ensures
            p.line == line,
            p.character == character,
    {
        Position { line, character }
    }
}

impl Range {
    pub fn new(start: Position, end: Position) -> (r: Range)
        ensures
            r.start == start,
            r.end == end,
    {
        Range { start, end }
    }
}

/// A range inside the file named by `uri`.
#[derive(Clone, Debug, PartialEq, Eq)]
pub struct Location {
    pub uri: String,
    pub range: Range,
}

/// What a `Location` stands for in contracts.
pub struct LocationView {
    pub uri: Seq<char>,
    pub range: Range,
}

impl View for Location {
    type V = LocationView;

    open spec fn view(&self) -> LocationView {
        LocationView { uri: self.uri@, range: self.range }
    }
}

impl Location {
    pub fn new(uri: String, range: Range) -> (l: Location)
        ensures
            l@ == (LocationView { uri: uri@, range }),
    {
        Location { uri, range }
    }

    /// Whether two locations name the same file and the same range.
    pub fn same_as(&self, other: &Location) -> (b: bool)
        ensures
            b == (self@ == other@),
    {
        self.uri == other.uri && self.range == other.range
    }

    pub fn duplicate(&self) -> (l: Location)
        ensures
            l@ == self@,
    {
        Location { uri: self.uri.clone(), range: self.range }
    }
}

} // verus!
