//! The document node of a text.

use vstd::prelude::*;
use crate::rnodes::rnode::EnumNodeType;

verus! {

#[derive(Debug)]
pub struct RNodeString {
    pub value: String,
}

impl RNodeString {
    pub fn new_copy(value: &String) -> (r: Self)
        ensures
            r.value@ == value@,
    {
        Self { value: value.clone() }
    }

    pub fn new_move(value: String) -> (r: Self)
        ensures
            r.value == value,
    {
        Self { value }
    }

    pub fn get_value(&self) -> (r: &String)
        ensures
            r == &self.value,
    {
        &self.value
    }

    pub fn set_value_copy(&mut self, value: &String)
        ensures
            final(self).value@ == value@,
    {
        self.value = value.clone();
    }

    pub fn set_value_move(&mut self, value: String)
        ensures
            final(self).value == value,
    {
        self.value = value;
    }

    pub fn get_node_type(&self) -> (r: EnumNodeType)
        ensures
            r == EnumNodeType::STRING,
    {
        EnumNodeType::STRING
    }
}

} // verus!
