//! The mathematical model of the document tree: ghost counterparts of the
//! executable node types, over `Seq` and `Map`.

use vstd::prelude::*;

verus! {

/// Model of one element: its tag name and its attribute mapping.
/// Attribute names are keys of the map; later writes of a name overwrite
/// earlier ones, so the mapping keeps keys unique by construction.
#[verifier::ext_equal]
pub struct ElementView {
    pub tag_name: Seq<char>,
    pub attributes: Map<Seq<char>, Seq<char>>,
}

/// Model of a node's payload: exactly three variants.
#[verifier::ext_equal]
pub enum NodeTypeView {
    Text(Seq<char>),
    Element(ElementView),
    Comment(Seq<char>),
}

/// Model of one node of the tree: a payload and an ordered sequence of
/// exclusively owned children. Text and comment nodes keep the sequence
/// empty.
#[verifier::ext_equal]
pub struct NodeView {
    pub node_type: NodeTypeView,
    pub children: Seq<NodeView>,
}

} // verus!
