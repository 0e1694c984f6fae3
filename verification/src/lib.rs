//! A command-line argument grammar and parser.
//!
//! A grammar ([`ArgParser`]) declares switches and value options. Parsing walks
//! a list of tokens from left to right, records a value for every option it
//! recognises, and hands back the recorded values together with the tokens it
//! did not consume.

pub mod arg_parser;
pub mod error;
pub mod flag;
pub mod laws;
pub mod parser;
pub mod result;
pub mod scan;
pub mod search;
pub mod text;
pub mod values;

pub use arg_parser::ArgParser;
pub use error::ParseError;
pub use flag::{Flag, FlagType, FlagValue};
pub use parser::Parser;
pub use result::ArgResult;
pub use values::FlagValues;
