//! A parser, expression evaluator and command interpreter for a
//! LinuxCNC-style dialect of RS-274 G-code.

use vstd::prelude::*;

pub mod binop;
pub mod eval;
pub mod expression;
pub mod fbits;
pub mod command;
pub mod interpret;
pub mod lex;
pub mod line_reader;
pub mod model_state;
pub mod laws;
pub mod parse_command;
pub mod parse_error;
pub mod parse_expression;
pub mod permute;
pub mod render;
pub mod spec_ast;
pub mod text;
pub mod varmap;

pub use command::Command;
pub use interpret::InterpretError;
pub use interpret::Interpreter;
pub use parse_command::parse_line;
pub use parse_command::GcodeParseError;

verus! {

/// Number of axis slots a motion command can carry: one for each of
/// the letters X, Y, Z, A, B and C.
pub const NUM_AXES: usize = 6;

} // verus!
