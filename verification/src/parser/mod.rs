pub mod number;
pub mod token;
pub mod token_bool;
pub mod token_char;
pub mod token_double;
pub mod token_null;
pub mod token_string;
pub mod token_symbol;
pub mod snapshot;
pub mod lexer;
pub mod parser;
pub mod node;
