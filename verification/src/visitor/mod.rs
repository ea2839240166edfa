pub mod visitor;
