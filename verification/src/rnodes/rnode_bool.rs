//! The document node of a boolean.

use vstd::prelude::*;
use crate::rnodes::rnode::EnumNodeType;

verus! {

#[derive(Debug)]
pub struct RNodeBool {
    pub value: bool,
}

impl RNodeBool {
    pub fn new(value: bool) -> (r: Self)
        ensures
            r.value == value,
    {
        Self { value }
    }

    pub fn get_node_type(&self) -> (r: EnumNodeType)
        ensures
            r == EnumNodeType::BOOL,
    {
        EnumNodeType::BOOL
    }
}

} // verus!
