//! Why a document is refused, and what is reported of one that is accepted.

use vstd::prelude::*;

verus! {

/// Why a document is refused. Each variant carries the number of the
/// offending line, counted from one.
#[derive(Debug, PartialEq, Eq)]
pub enum ParseError {
    /// A token of a `v` statement in the place of a coordinate is no
    /// floating-point literal.
    MalformedNumber { line: usize, token: String },
    /// A token of an `l` or `f` statement in the place of a vertex reference
    /// is no unsigned integer, is zero, or is larger than the number of
    /// vertices declared on the lines before.
    MalformedIndex { line: usize, token: String },
    /// An `l` statement has fewer than two references, or an `f` statement
    /// fewer than three.
    IncompleteStatement { line: usize },
}

/// What a [`ParseError`] stands for in specifications.
pub enum Failure {
    MalformedNumber { line: nat, token: Seq<char> },
    MalformedIndex { line: nat, token: Seq<char> },
    IncompleteStatement { line: nat },
}

impl View for ParseError {
    type V = Failure;

    open spec fn view(&self) -> Failure {
        match *self {
            ParseError::MalformedNumber { line, token } => Failure::MalformedNumber {
                line: line as nat,
                token: token@,
            },
            ParseError::MalformedIndex { line, token } => Failure::MalformedIndex {
                line: line as nat,
                token: token@,
            },
            ParseError::IncompleteStatement { line } => Failure::IncompleteStatement {
                line: line as nat,
            },
        }
    }
}

impl Failure {
    /// The number of the offending line.
    pub open spec fn line(self) -> nat {
        match self {
            Failure::MalformedNumber { line, .. } => line,
            Failure::MalformedIndex { line, .. } => line,
            Failure::IncompleteStatement { line } => line,
        }
    }
}

impl ParseError {
    /// The number of the offending line, counted from one.
    pub fn line(&self) -> (line: usize)
        ensures
            line == self@.line(),
    {
        match self {
            ParseError::MalformedNumber { line, .. } => *line,
            ParseError::MalformedIndex { line, .. } => *line,
            ParseError::IncompleteStatement { line } => *line,
        }
    }
}

/// A note on an `f` statement that holds more references than the parser
/// keeps: the statement was cut short, and the document is still accepted.
#[derive(Debug, Clone, Copy, PartialEq, Eq)]
pub struct FaceTooLarge {
    /// The number of the line, counted from one.
    pub line: usize,
    /// How many references the statement holds.
    pub references: usize,
}

/// What a [`FaceTooLarge`] stands for in specifications.
pub struct Oversize {
    pub line: nat,
    pub references: nat,
}

/// What an optional note stands for in specifications.
pub open spec fn note_view(note: Option<FaceTooLarge>) -> Option<Oversize> {
    match note {
        Some(n) => Some(n@),
        None => None,
    }
}

/// What a list of notes stands for in specifications.
pub open spec fn note_views(notes: Seq<FaceTooLarge>) -> Seq<Oversize> {
    Seq::new(notes.len(), |k: int| notes[k]@)
}

impl View for FaceTooLarge {
    type V = Oversize;

    open spec fn view(&self) -> Oversize {
        Oversize { line: self.line as nat, references: self.references as nat }
    }
}

} // verus!
