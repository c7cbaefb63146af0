use vstd::prelude::*;

verus! {

/// A span of source text: the file it comes from and its first and last
/// positions.
#[derive(Debug)]
pub struct Location {
    pub file: String,
    pub from: Position,
    pub to: Position,
}

/// A line and column in a source file, both counted from zero.
#[derive(Debug, Copy, Clone, PartialEq, Eq, Structural)]
pub struct Position {
    pub line: i32,
    pub column: i32,
}

/// The content of a [`Location`].
pub struct LocationV {
    pub file: Seq<char>,
    pub from: Position,
    pub to: Position,
}

impl View for Location {
    type V = LocationV;

    open spec fn view(&self) -> LocationV {
        LocationV { file: self.file@, from: self.from, to: self.to }
    }
}

impl Clone for Location {
    fn clone(&self) -> (r: Self)
        ensures
            r == *self,
    {
        Location { file: self.file.clone(), from: self.from, to: self.to }
    }
}

impl Location {
    /// The span that starts where `self` starts and ends where `loc` ends,
    /// in the file of `self`.
    pub fn extend(&self, loc: &Location) -> (r: Self)
        ensures
            r.file == self.file,
            r.from == self.from,
            r.to == loc.to,
    {
        Location { file: self.file.clone(), from: self.from, to: loc.to }
    }
}

} // verus!
