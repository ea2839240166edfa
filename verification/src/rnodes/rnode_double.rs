//! The document node of a number.

use vstd::prelude::*;
use crate::parser::number::Number;
use crate::rnodes::rnode::EnumNodeType;

verus! {

#[derive(Debug)]
pub struct RNodeDouble {
    pub value: Number,
}

impl RNodeDouble {
    pub fn new(value: Number) -> (r: Self)
        ensures
            r.value == value,
    {
        Self { value }
    }

    pub fn get_node_type(&self) -> (r: EnumNodeType)
        ensures
            r == EnumNodeType::DOUBLE,
    {
        EnumNodeType::DOUBLE
    }
}

} // verus!
