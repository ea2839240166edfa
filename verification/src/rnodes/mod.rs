pub mod rnode;
pub mod rnode_array;
pub mod rnode_bool;
pub mod rnode_double;
pub mod rnode_null;
pub mod rnode_object;
pub mod rnode_string;
pub mod rnode_factory;
