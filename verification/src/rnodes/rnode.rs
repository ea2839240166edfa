//! The document node: one of six kinds of value, the composite ones holding
//! their children.

use vstd::prelude::*;
use crate::parser::number::NumberView;
use crate::rnodes::rnode_array::RNodeArray;
use crate::rnodes::rnode_bool::RNodeBool;
use crate::rnodes::rnode_double::RNodeDouble;
use crate::rnodes::rnode_null::RNodeNull;
use crate::rnodes::rnode_object::RNodeObject;
use crate::rnodes::rnode_object::keys_ascend;
use crate::rnodes::rnode_string::RNodeString;

verus! {

#[derive(Debug, PartialEq, Eq, Structural, Clone, Copy)]
pub enum EnumNodeType {
    ARRAY,
    BOOL,
    DOUBLE,
    NULL,
    OBJECT,
    STRING,
}

impl EnumNodeType {
    /// The name of the kind, in capitals.
    pub open spec fn name(self) -> Seq<char> {
        match self {
            EnumNodeType::ARRAY => "ARRAY"@,
            EnumNodeType::BOOL => "BOOL"@,
            EnumNodeType::DOUBLE => "DOUBLE"@,
            EnumNodeType::NULL => "NULL"@,
            EnumNodeType::OBJECT => "OBJECT"@,
            EnumNodeType::STRING => "STRING"@,
        }
    }

    pub fn to_string(&self) -> (r: String)
        ensures
            r@ == self.name(),
    {
        match self {
            EnumNodeType::ARRAY => "ARRAY".to_string(),
            EnumNodeType::BOOL => "BOOL".to_string(),
            EnumNodeType::DOUBLE => "DOUBLE".to_string(),
            EnumNodeType::NULL => "NULL".to_string(),
            EnumNodeType::OBJECT => "OBJECT".to_string(),
            EnumNodeType::STRING => "STRING".to_string(),
        }
    }
}

/// A document node of any kind.
#[derive(Debug)]
pub enum RNode {
    Array(RNodeArray),
    Bool(RNodeBool),
    Double(RNodeDouble),
    Null(RNodeNull),
    Object(RNodeObject),
    String(RNodeString),
}

/// The mathematical value of a document: a tree of values.
pub ghost enum RNodeView {
    Array(Seq<RNodeView>),
    Bool(bool),
    Double(NumberView),
    Null,
    Object(Seq<(Seq<char>, RNodeView)>),
    String(Seq<char>),
}

/// The values of the first `count` of `nodes`.
pub open spec fn nodes_view_to(nodes: Seq<RNode>, count: nat) -> Seq<RNodeView>
    decreases nodes, count,
{
    if count == 0 || count > nodes.len() {
        Seq::empty()
    } else {
        nodes_view_to(nodes, (count - 1) as nat).push(node_view(nodes[count - 1]))
    }
}

/// The keys of the first `count` of `entries`, each with the value of its node.
pub open spec fn entries_view_to(entries: Seq<(String, RNode)>, count: nat) -> Seq<
    (Seq<char>, RNodeView),
>
    decreases entries, count,
{
    if count == 0 || count > entries.len() {
        Seq::empty()
    } else {
        entries_view_to(entries, (count - 1) as nat).push(
            (entries[count - 1].0@, node_view(entries[count - 1].1)),
        )
    }
}

/// The value of a node.
pub open spec fn node_view(node: RNode) -> RNodeView
    decreases node, 0nat,
{
    match node {
        RNode::Array(a) => RNodeView::Array(nodes_view_to(a.arr@, a.arr@.len())),
        RNode::Bool(b) => RNodeView::Bool(b.value),
        RNode::Double(d) => RNodeView::Double(d.value@),
        RNode::Null(_) => RNodeView::Null,
        RNode::Object(o) => RNodeView::Object(entries_view_to(o.map@, o.map@.len())),
        RNode::String(s) => RNodeView::String(s.value@),
    }
}

impl View for RNode {
    type V = RNodeView;

    open spec fn view(&self) -> RNodeView {
        node_view(*self)
    }
}

/// The values of a sequence of nodes.
pub open spec fn nodes_view(nodes: Seq<RNode>) -> Seq<RNodeView> {
    Seq::new(nodes.len(), |i: int| nodes[i]@)
}

/// The keys of a sequence of entries with the values of their nodes.
pub open spec fn entries_view(entries: Seq<(String, RNode)>) -> Seq<(Seq<char>, RNodeView)> {
    Seq::new(entries.len(), |i: int| (entries[i].0@, entries[i].1@))
}

proof fn lemma_nodes_view_to(nodes: Seq<RNode>, count: nat)
    requires
        count <= nodes.len(),
    ensures
        nodes_view_to(nodes, count) == nodes_view(nodes.subrange(0, count as int)),
    decreases count,
{
    if count > 0 {
        lemma_nodes_view_to(nodes, (count - 1) as nat);
        assert(nodes_view(nodes.subrange(0, count - 1)).push(nodes[count - 1]@) =~= nodes_view(
            nodes.subrange(0, count as int),
        ));
    } else {
        assert(nodes_view(nodes.subrange(0, 0)) =~= Seq::empty());
    }
}

proof fn lemma_entries_view_to(entries: Seq<(String, RNode)>, count: nat)
    requires
        count <= entries.len(),
    ensures
        entries_view_to(entries, count) == entries_view(entries.subrange(0, count as int)),
    decreases count,
{
    if count > 0 {
        lemma_entries_view_to(entries, (count - 1) as nat);
        assert(entries_view(entries.subrange(0, count - 1)).push(
            (entries[count - 1].0@, entries[count - 1].1@),
        ) =~= entries_view(entries.subrange(0, count as int)));
    } else {
        assert(entries_view(entries.subrange(0, 0)) =~= Seq::empty());
    }
}

/// The value of an array node is the array of the values of its children.
pub proof fn lemma_array_view(a: RNodeArray)
    ensures
        RNode::Array(a)@ == RNodeView::Array(nodes_view(a.arr@)),
{
    lemma_nodes_view_to(a.arr@, a.arr@.len());
    assert(a.arr@.subrange(0, a.arr@.len() as int) =~= a.arr@);
}

/// The value of an object node is the sequence of its keys, each with the
/// value of its child.
pub proof fn lemma_object_view(o: RNodeObject)
    ensures
        RNode::Object(o)@ == RNodeView::Object(entries_view(o.map@)),
{
    lemma_entries_view_to(o.map@, o.map@.len());
    assert(o.map@.subrange(0, o.map@.len() as int) =~= o.map@);
}

/// Whether the first `count` of `nodes` are in order within.
pub open spec fn nodes_ordered_to(nodes: Seq<RNode>, count: nat) -> bool
    decreases nodes, count,
{
    count == 0 || count > nodes.len() || (nodes_ordered_to(nodes, (count - 1) as nat)
        && node_ordered(nodes[count - 1]))
}

/// Whether the values of the first `count` of `entries` are in order within.
pub open spec fn entries_ordered_to(entries: Seq<(String, RNode)>, count: nat) -> bool
    decreases entries, count,
{
    count == 0 || count > entries.len() || (entries_ordered_to(entries, (count - 1) as nat)
        && node_ordered(entries[count - 1].1))
}

/// Whether every object in the tree of `node` has its entries in strictly
/// ascending order of their keys.
pub open spec fn node_ordered(node: RNode) -> bool
    decreases node, 0nat,
{
    match node {
        RNode::Array(a) => nodes_ordered_to(a.arr@, a.arr@.len()),
        RNode::Object(o) => keys_ascend(o.map@) && entries_ordered_to(o.map@, o.map@.len()),
        _ => true,
    }
}

/// The first `count` nodes are in order within exactly if each of them is.
pub proof fn lemma_nodes_ordered(nodes: Seq<RNode>, count: nat)
    requires
        count <= nodes.len(),
    ensures
        nodes_ordered_to(nodes, count) <==> forall|i: int|
            0 <= i < count ==> node_ordered(#[trigger] nodes[i]),
    decreases count,
{
    if count > 0 {
        lemma_nodes_ordered(nodes, (count - 1) as nat);
    }
}

/// The values of the first `count` entries are in order within exactly if
/// each of them is.
pub proof fn lemma_entries_ordered(entries: Seq<(String, RNode)>, count: nat)
    requires
        count <= entries.len(),
    ensures
        entries_ordered_to(entries, count) <==> forall|i: int|
            0 <= i < count ==> node_ordered((#[trigger] entries[i]).1),
    decreases count,
{
    if count > 0 {
        lemma_entries_ordered(entries, (count - 1) as nat);
    }
}

impl RNode {
    /// The kind of this node.
    pub open spec fn node_type(&self) -> EnumNodeType {
        match self {
            RNode::Array(_) => EnumNodeType::ARRAY,
            RNode::Bool(_) => EnumNodeType::BOOL,
            RNode::Double(_) => EnumNodeType::DOUBLE,
            RNode::Null(_) => EnumNodeType::NULL,
            RNode::Object(_) => EnumNodeType::OBJECT,
            RNode::String(_) => EnumNodeType::STRING,
        }
    }

    /// Whether every object in this tree has its entries in strictly
    /// ascending order of their keys, so that no object has a key twice.
    pub open spec fn wf(&self) -> bool {
        node_ordered(*self)
    }

    pub fn get_node_type(&self) -> (r: EnumNodeType)
        ensures
            r == self.node_type(),
    {
        match self {
            RNode::Array(n) => n.get_node_type(),
            RNode::Bool(n) => n.get_node_type(),
            RNode::Double(n) => n.get_node_type(),
            RNode::Null(n) => n.get_node_type(),
            RNode::Object(n) => n.get_node_type(),
            RNode::String(n) => n.get_node_type(),
        }
    }

    /// The array node that this node is, if it is one.
    pub fn as_array(&self) -> (r: Option<&RNodeArray>)
        ensures
            r == match self {
                RNode::Array(n) => Some(n),
                _ => None,
            },
    {
        match self {
            RNode::Array(n) => Some(n),
            _ => None,
        }
    }

    /// The boolean node that this node is, if it is one.
    pub fn as_bool(&self) -> (r: Option<&RNodeBool>)
        ensures
            r == match self {
                RNode::Bool(n) => Some(n),
                _ => None,
            },
    {
        match self {
            RNode::Bool(n) => Some(n),
            _ => None,
        }
    }

    /// The number node that this node is, if it is one.
    pub fn as_double(&self) -> (r: Option<&RNodeDouble>)
        ensures
            r == match self {
                RNode::Double(n) => Some(n),
                _ => None,
            },
    {
        match self {
            RNode::Double(n) => Some(n),
            _ => None,
        }
    }

    /// The null node that this node is, if it is one.
    pub fn as_null(&self) -> (r: Option<&RNodeNull>)
        ensures
            r == match self {
                RNode::Null(n) => Some(n),
                _ => None,
            },
    {
        match self {
            RNode::Null(n) => Some(n),
            _ => None,
        }
    }

    /// The object node that this node is, if it is one.
    pub fn as_object(&self) -> (r: Option<&RNodeObject>)
        ensures
            r == match self {
                RNode::Object(n) => Some(n),
                _ => None,
            },
    {
        match self {
            RNode::Object(n) => Some(n),
            _ => None,
        }
    }

    /// The text node that this node is, if it is one.
    pub fn as_string(&self) -> (r: Option<&RNodeString>)
        ensures
            r == match self {
                RNode::String(n) => Some(n),
                _ => None,
            },
    {
        match self {
            RNode::String(n) => Some(n),
            _ => None,
        }
    }
}

} // verus!
