pub mod string_utils;
pub mod cli_args;
