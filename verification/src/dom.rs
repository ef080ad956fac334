//! A lightweight owned node model used by the scanner: a node is either a
//! run of text or an element with a tag name, an attribute map and owned
//! children. The arena-backed tree the full pipeline builds lives elsewhere;
//! this model needs no handles because its ownership is strictly top-down.

use vstd::prelude::*;

verus! {

/// An ordered list of attribute key/value pairs.
pub type AttrMap = Vec<(Vec<u8>, Vec<u8>)>;

/// One owned node: its payload and its children.
#[derive(Debug, PartialEq, Eq)]
pub struct Node {
    pub children: Vec<Node>,
    pub node_type: NodeType,
}

/// A node's payload: a run of text, or an element.
#[derive(Debug, PartialEq, Eq)]
pub enum NodeType {
    Text(Vec<u8>),
    Element(ElementData),
}

/// An element's name and attributes.
#[derive(Debug, PartialEq, Eq)]
pub struct ElementData {
    pub tag_name: Vec<u8>,
    pub attributes: AttrMap,
}

impl Node {
    /// A childless text node holding `data`.
    pub(crate) fn text(data: Vec<u8>) -> (r: Self)
        ensures
            r.children@.len() == 0,
            r.node_type == NodeType::Text(data),
    {
        Node { children: Vec::new(), node_type: NodeType::Text(data) }
    }

    /// An element node with the given name, attributes and children.
    pub fn elem(name: Vec<u8>, attrs: AttrMap, children: Vec<Node>) -> (r: Self)
        ensures
            r.children == children,
            r.node_type is Element,
            r.node_type->Element_0.tag_name == name,
            r.node_type->Element_0.attributes == attrs,
    {
        Node { children, node_type: NodeType::Element(ElementData { tag_name: name, attributes: attrs }) }
    }

    /// The bytes that name this node: an element's tag name, or a text
    /// node's data.
    pub fn get_tag_name(&self) -> (r: &[u8])
        ensures
            self.node_type is Element ==> r@ == self.node_type->Element_0.tag_name@,
            self.node_type is Text ==> r@ == self.node_type->Text_0@,
    {
        match &self.node_type {
            NodeType::Text(data) => data.as_slice(),
            NodeType::Element(data) => data.tag_name.as_slice(),
        }
    }
}

} // verus!
