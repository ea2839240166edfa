//! A first, flat node model: the kinds of node, the accessors that every
//! node offers, and the number node.

use vstd::prelude::*;
use crate::parser::number::Number;
use crate::parser::number::NumberView;

verus! {

#[derive(Debug, PartialEq, Eq, Structural, Clone, Copy)]
pub enum EnumNodeType {
    ARRAY,
    BOOL,
    DOUBLE,
    OBJECT,
    STRING,
}

/// What every node offers: its kind, a test for each kind, and an accessor
/// for each payload that fails with a message on a node of another kind.
pub trait NodeTrait {
    /// The kind of this node.
    spec fn kind(&self) -> EnumNodeType;

    fn get_type(&self) -> (r: EnumNodeType)
        ensures
            r == self.kind(),
    ;

    fn as_bool(&self) -> (r: Result<bool, String>)
        ensures
            r is Ok <==> self.kind() == EnumNodeType::BOOL,
    ;

    fn as_double(&self) -> (r: Result<&Number, String>)
        ensures
            r is Ok <==> self.kind() == EnumNodeType::DOUBLE,
    ;

    fn as_string(&self) -> (r: Result<String, String>)
        ensures
            r is Ok <==> self.kind() == EnumNodeType::STRING,
    ;

    fn is_array(&self) -> (r: bool)
        ensures
            r == (self.kind() == EnumNodeType::ARRAY),
    ;

    fn is_bool(&self) -> (r: bool)
        ensures
            r == (self.kind() == EnumNodeType::BOOL),
    ;

    fn is_double(&self) -> (r: bool)
        ensures
            r == (self.kind() == EnumNodeType::DOUBLE),
    ;

    fn is_object(&self) -> (r: bool)
        ensures
            r == (self.kind() == EnumNodeType::OBJECT),
    ;

    fn is_string(&self) -> (r: bool)
        ensures
            r == (self.kind() == EnumNodeType::STRING),
    ;
}

/// A node that holds a number.
#[derive(Debug)]
pub struct NodeDouble {
    value: Number,
}

impl View for NodeDouble {
    type V = NumberView;

    closed spec fn view(&self) -> NumberView {
        self.value@
    }
}

impl NodeDouble {
    pub fn new(value: Number) -> (r: Self)
        ensures
            r@ == value@,
    {
        Self { value }
    }

    pub fn get_value(&self) -> (r: &Number)
        ensures
            r@ == self@,
    {
        &self.value
    }

    pub fn set_value(&mut self, value: Number)
        ensures
            final(self)@ == value@,
    {
        self.value = value;
    }
}

impl NodeTrait for NodeDouble {
    open spec fn kind(&self) -> EnumNodeType {
        EnumNodeType::DOUBLE
    }

    fn get_type(&self) -> (r: EnumNodeType) {
        EnumNodeType::DOUBLE
    }

    fn as_bool(&self) -> (r: Result<bool, String>)
        ensures
            r matches Err(m) && m@ == "NodeDouble is not a NodeBool"@,
    {
        Err("NodeDouble is not a NodeBool".to_string())
    }

    fn as_double(&self) -> (r: Result<&Number, String>)
        ensures
            r matches Ok(v) && v@ == self@,
    {
        Ok(&self.value)
    }

    fn as_string(&self) -> (r: Result<String, String>)
        ensures
            r matches Err(m) && m@ == "NodeDouble is not a NodeString"@,
    {
        Err("NodeDouble is not a NodeString".to_string())
    }

    fn is_array(&self) -> (r: bool) {
        false
    }

    fn is_bool(&self) -> (r: bool) {
        false
    }

    fn is_double(&self) -> (r: bool) {
        true
    }

    fn is_object(&self) -> (r: bool) {
        false
    }

    fn is_string(&self) -> (r: bool) {
        false
    }
}

} // verus!
