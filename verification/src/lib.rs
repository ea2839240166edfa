//! A lexer, recursive-descent parser, document model and serializer for RSON,
//! a JSON-like textual data format.

pub mod utils;
pub mod log;
pub mod parser;
pub mod rnodes;
pub mod visitor;
pub mod io;
