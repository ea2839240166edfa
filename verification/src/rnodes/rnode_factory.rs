//! Makes the empty node of each kind.

use vstd::prelude::*;
use crate::parser::number::Number;
use crate::rnodes::rnode::EnumNodeType;
use crate::rnodes::rnode::RNode;
use crate::rnodes::rnode::RNodeView;
use crate::rnodes::rnode::lemma_array_view;
use crate::rnodes::rnode::lemma_object_view;
use crate::rnodes::rnode::nodes_view;
use crate::rnodes::rnode::entries_view;
use crate::rnodes::rnode_array::RNodeArray;
use crate::rnodes::rnode_bool::RNodeBool;
use crate::rnodes::rnode_double::RNodeDouble;
use crate::rnodes::rnode_null::RNodeNull;
use crate::rnodes::rnode_object::RNodeObject;
use crate::rnodes::rnode_string::RNodeString;

verus! {

/// The value of the node that [`create_node`] makes for each kind: an empty
/// array, `false`, zero, null, an empty object, an empty text.
pub open spec fn default_view(node_type: EnumNodeType) -> RNodeView {
    match node_type {
        EnumNodeType::ARRAY => RNodeView::Array(Seq::empty()),
        EnumNodeType::BOOL => RNodeView::Bool(false),
        EnumNodeType::DOUBLE => RNodeView::Double(Number::zero_view()),
        EnumNodeType::NULL => RNodeView::Null,
        EnumNodeType::OBJECT => RNodeView::Object(Seq::empty()),
        EnumNodeType::STRING => RNodeView::String(Seq::empty()),
    }
}

/// A node of the given kind that holds nothing, or zero.
pub fn create_node(node_type: EnumNodeType) -> (r: Result<RNode, String>)
    ensures
        r matches Ok(node) && node@ == default_view(node_type) && node.node_type() == node_type,
{
    match node_type {
        EnumNodeType::ARRAY => {
            let node = RNodeArray::new(Vec::new());
            proof {
                lemma_array_view(node);
                assert(nodes_view(node.arr@) =~= Seq::empty());
            }
            Ok(RNode::Array(node))
        },
        EnumNodeType::BOOL => Ok(RNode::Bool(RNodeBool::new(false))),
        EnumNodeType::DOUBLE => Ok(RNode::Double(RNodeDouble::new(Number::zero()))),
        EnumNodeType::NULL => Ok(RNode::Null(RNodeNull::new())),
        EnumNodeType::OBJECT => {
            let node = RNodeObject::new(Vec::new());
            proof {
                lemma_object_view(node);
                assert(entries_view(node.map@) =~= Seq::empty());
            }
            Ok(RNode::Object(node))
        },
        EnumNodeType::STRING => Ok(RNode::String(RNodeString::new_move(String::new()))),
    }
}

} // verus!
