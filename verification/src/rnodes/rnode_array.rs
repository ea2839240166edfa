//! The document node of an array: its children in document order.

use vstd::prelude::*;
use crate::rnodes::rnode::EnumNodeType;
use crate::rnodes::rnode::RNode;

verus! {

#[derive(Debug)]
pub struct RNodeArray {
    pub arr: Vec<RNode>,
}

impl RNodeArray {
    pub fn new(arr: Vec<RNode>) -> (r: Self)
        ensures
            r.arr == arr,
    {
        Self { arr }
    }

    pub fn is_empty(&self) -> (r: bool)
        ensures
            r == (self.arr@.len() == 0),
    {
        self.arr.len() == 0
    }

    pub fn len(&self) -> (r: usize)
        ensures
            r == self.arr@.len(),
    {
        self.arr.len()
    }

    /// The child at `index`, if there is one.
    pub fn get(&self, index: usize) -> (r: Option<&RNode>)
        ensures
            index < self.arr@.len() ==> r == Some(&self.arr@[index as int]),
            index >= self.arr@.len() ==> r is None,
    {
        if index < self.arr.len() {
            return Some(&self.arr[index]);
        }
        None
    }

    pub fn get_node_type(&self) -> (r: EnumNodeType)
        ensures
            r == EnumNodeType::ARRAY,
    {
        EnumNodeType::ARRAY
    }
}

} // verus!
