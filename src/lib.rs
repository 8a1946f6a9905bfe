//! An interpreter for the eight-instruction tape language: `+ - < > . , [ ]`
//! over a fixed program tape and a fixed data tape of byte cells, with
//! wrapping cells, a circular data pointer and a bounded loop stack.
pub mod interpreter;
pub mod laws;
pub mod machine;

pub use interpreter::{Input, Interpreter, Output};
pub use machine::RunError;
