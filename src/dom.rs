use vstd::prelude::*;

verus! {

/// What a node of a parsed HTML tree is.
#[derive(Debug)]
pub enum NodeKind {
    /// An element, with its lower-case tag name.
    Element(String),
    /// A text node, with its raw unescaped contents.
    Text(String),
    /// Any other node (the document itself, a comment, a doctype, ...).
    Other,
}

/// A node of a parsed HTML tree, with its children in document order.
#[derive(Debug)]
pub struct Node {
    pub kind: NodeKind,
    pub children: Vec<Node>,
}

impl Node {
    /// An element node with the given tag name and children.
    pub fn element(name: &str, children: Vec<Node>) -> (r: Node)
        ensures
            r.kind matches NodeKind::Element(n) && n@ == name@,
            r.children@ == children@,
    {
        Node { kind: NodeKind::Element(name.to_string()), children }
    }

    /// A text node without children.
    pub fn text(contents: &str) -> (r: Node)
        ensures
            r.kind matches NodeKind::Text(t) && t@ == contents@,
            r.children@.len() == 0,
    {
        Node { kind: NodeKind::Text(contents.to_string()), children: Vec::new() }
    }
}

} // verus!
