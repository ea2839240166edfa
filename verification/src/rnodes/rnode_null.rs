//! The document node of `null`.

use vstd::prelude::*;
use crate::rnodes::rnode::EnumNodeType;

verus! {

#[derive(Debug)]
pub struct RNodeNull {}

impl RNodeNull {
    pub fn new() -> (r: Self) {
        Self {  }
    }

    pub fn get_node_type(&self) -> (r: EnumNodeType)
        ensures
            r == EnumNodeType::NULL,
    {
        EnumNodeType::NULL
    }
}

} // verus!
