//! Line framing: the decision logic of a newline-delimited reader.
//!
//! The driver owns the transport and the scratch buffer; it reads one byte
//! at a time and asks [`next_line_step`] what to do with it.  A line ends
//! at `\n` (the newline is not part of the line) or at the end of input;
//! end of input with nothing buffered means there is no further line, and
//! a full buffer before a line ends is an error.

use vstd::prelude::*;

verus! {

/// One event from the byte transport.
#[derive(Clone, Copy, PartialEq, Eq, Structural, Debug)]
pub enum LineEvent {
    /// A byte arrived.
    Byte(u8),
    /// The transport is exhausted.
    Eof,
}

/// What the driver does next.
#[derive(Clone, Copy, PartialEq, Eq, Structural, Debug)]
pub enum LineStep {
    /// The buffer filled before the line ended.
    TooLong,
    /// End of input with an empty buffer: no further line.
    EndOfInput,
    /// The buffered bytes are one whole line.
    EmitLine,
    /// Store this byte and read on.
    Store(u8),
}

/// The framing decision: a full buffer fails first; then end of input
/// either ends the session or emits the partial line; a newline emits the
/// line; any other byte is stored.
pub open spec fn sp_line_step(len: int, cap: int, ev: LineEvent) -> LineStep {
    if len >= cap {
        LineStep::TooLong
    } else {
        match ev {
            LineEvent::Eof => {
                if len == 0 {
                    LineStep::EndOfInput
                } else {
                    LineStep::EmitLine
                }
            },
            LineEvent::Byte(b) => {
                if b == 10 {
                    LineStep::EmitLine
                } else {
                    LineStep::Store(b)
                }
            },
        }
    }
}

/// Decide what to do with one transport event, given how many bytes of
/// the current line are buffered and the buffer's capacity.
pub fn next_line_step(len: usize, cap: usize, ev: LineEvent) -> (r: LineStep)
    ensures
        r == sp_line_step(len as int, cap as int, ev),
{
    if len >= cap {
        LineStep::TooLong
    } else {
        match ev {
            LineEvent::Eof => {
                if len == 0 {
                    LineStep::EndOfInput
                } else {
                    LineStep::EmitLine
                }
            },
            LineEvent::Byte(b) => {
                if b == 10 {
                    LineStep::EmitLine
                } else {
                    LineStep::Store(b)
                }
            },
        }
    }
}

} // verus!
