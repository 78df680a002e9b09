//! Session-level errors: what a driver sees from the parser and from its
//! line reader.

use vstd::prelude::*;

use crate::parse_command::GcodeParseError;

verus! {

/// A place in the input text.
#[derive(Debug, Clone, Copy, PartialEq, Eq, Structural)]
pub struct Position {
    pub byte: usize,
    pub line: usize,
    pub column: usize,
}

impl Position {
    /// The start of the input.
    pub fn start() -> (r: Self)
        ensures
            r.byte == 0 && r.line == 0 && r.column == 0,
    {
        Position { byte: 0, line: 0, column: 0 }
    }
}

/// Everything that can end the handling of one line.
#[derive(Debug, PartialEq)]
pub enum ParseError<ReadError> {
    /// The parser could not make a command of the line.
    Gcode(GcodeParseError),
    /// The byte transport failed.
    Read(ReadError),
    /// The byte transport returned an impossible read size.
    ReadSize(usize),
    /// The line buffer filled before a newline arrived.
    LineTooLong,
}

} // verus!
