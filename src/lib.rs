//! An assembler and simulator for a small 4-bit accumulator machine.
//!
//! `compile` turns source text into commands, reporting every malformed
//! line at once; `Runtime` runs the commands one tick at a time.
pub mod backend;
pub mod commands;
pub mod error;
pub mod frontend;
pub mod lexer;
pub mod lines;
pub mod nibble;
pub mod operant;
pub mod parser;
pub mod resolver;

pub use backend::{Runtime, StatusBits};
pub use commands::{Command, Instruction};
pub use error::{Line, ParseError, ParseErrorReport, ParseErrorType};
pub use frontend::compile;
pub use nibble::Nibble;
