pub mod writer;
pub mod reader;
pub mod round_trip;
