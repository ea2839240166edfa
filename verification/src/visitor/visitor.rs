//! Visiting a document node: one method for each kind of node.

use vstd::prelude::*;
use crate::rnodes::rnode::RNode;
use crate::rnodes::rnode_array::RNodeArray;
use crate::rnodes::rnode_bool::RNodeBool;
use crate::rnodes::rnode_double::RNodeDouble;
use crate::rnodes::rnode_null::RNodeNull;
use crate::rnodes::rnode_object::RNodeObject;
use crate::rnodes::rnode_string::RNodeString;

verus! {

/// A consumer of document nodes. Each visitor says with [`Visitor::visited`]
/// what a visit of a node does to it, and each of its methods keeps to that.
pub trait Visitor: Sized {
    /// Whether `after` is what becomes of the visitor `before` when it
    /// visits `node`.
    spec fn visited(before: &Self, node: &RNode, after: &Self) -> bool;

    fn visit_array(&mut self, node: &RNodeArray)
        ensures
            Self::visited(old(self), &RNode::Array(*node), final(self)),
    ;

    fn visit_bool(&mut self, node: &RNodeBool)
        ensures
            Self::visited(old(self), &RNode::Bool(*node), final(self)),
    ;

    fn visit_double(&mut self, node: &RNodeDouble)
        ensures
            Self::visited(old(self), &RNode::Double(*node), final(self)),
    ;

    fn visit_null(&mut self, node: &RNodeNull)
        ensures
            Self::visited(old(self), &RNode::Null(*node), final(self)),
    ;

    fn visit_object(&mut self, node: &RNodeObject)
        ensures
            Self::visited(old(self), &RNode::Object(*node), final(self)),
    ;

    fn visit_string(&mut self, node: &RNodeString)
        ensures
            Self::visited(old(self), &RNode::String(*node), final(self)),
    ;
}

impl RNode {
    /// Has `visitor` visit this node, through the method for its kind.
    pub fn accept<V: Visitor>(&self, visitor: &mut V)
        ensures
            V::visited(old(visitor), self, final(visitor)),
    {
        match self {
            RNode::Array(n) => visitor.visit_array(n),
            RNode::Bool(n) => visitor.visit_bool(n),
            RNode::Double(n) => visitor.visit_double(n),
            RNode::Null(n) => visitor.visit_null(n),
            RNode::Object(n) => visitor.visit_object(n),
            RNode::String(n) => visitor.visit_string(n),
        }
    }
}

} // verus!
