//! Node types stored in the document arena.

use vstd::prelude::*;

verus! {

/// A copyable handle into the `Document` arena.
#[derive(Clone, Copy, PartialEq, Eq, Structural, Hash, Debug)]
pub struct NodeId(pub usize);

/// DOM node type (the W3C numbers are given by `NodeType::number`).
#[derive(Clone, Copy, PartialEq, Eq, Structural, Debug)]
pub enum NodeType {
    Element,
    Text,
    Comment,
    Document,
    DocumentFragment,
}

impl NodeType {
    /// The W3C `nodeType` number of this node type.
    pub fn number(&self) -> (n: u16)
        ensures
            n == (match *self {
                NodeType::Element => 1u16,
                NodeType::Text => 3u16,
                NodeType::Comment => 8u16,
                NodeType::Document => 9u16,
                NodeType::DocumentFragment => 11u16,
            }),
    {
        match self {
            NodeType::Element => 1,
            NodeType::Text => 3,
            NodeType::Comment => 8,
            NodeType::Document => 9,
            NodeType::DocumentFragment => 11,
        }
    }
}

/// The data payload of a node — determines what kind of node it is.
pub enum NodeKind {
    Document,
    Element(ElementData),
    Text(String),
    Comment(String),
    DocumentFragment,
}

/// Element-specific data stored inside `NodeKind::Element`.
pub struct ElementData {
    pub tag: String,
    pub attributes: Vec<(String, String)>,
    pub id: Option<String>,
    pub class_list: Vec<String>,
    pub self_closing: bool,
}

impl ElementData {
    /// A new element with the given tag, no attributes and no classes.
    pub fn new(tag: &str) -> (el: Self)
        ensures
            el.tag@ == tag@,
            el.attributes@.len() == 0,
            el.id is None,
            el.class_list@.len() == 0,
            !el.self_closing,
    {
        ElementData {
            tag: tag.to_owned(),
            attributes: Vec::new(),
            id: None,
            class_list: Vec::new(),
            self_closing: false,
        }
    }

    /// A new void (self-closing) element with the given tag.
    pub fn new_void(tag: &str) -> (el: Self)
        ensures
            el.tag@ == tag@,
            el.attributes@.len() == 0,
            el.id is None,
            el.class_list@.len() == 0,
            el.self_closing,
    {
        ElementData {
            tag: tag.to_owned(),
            attributes: Vec::new(),
            id: None,
            class_list: Vec::new(),
            self_closing: true,
        }
    }
}

/// Per-node storage for event listeners.
pub struct EventListenerEntry {
    pub event_type: String,
    pub callback_id: usize,
    pub capture: bool,
    pub once: bool,
    pub passive: bool,
}

/// Arena-stored node data. Every node in the tree is one of these.
pub struct NodeData {
    pub kind: NodeKind,
    pub parent: Option<NodeId>,
    pub first_child: Option<NodeId>,
    pub last_child: Option<NodeId>,
    pub prev_sibling: Option<NodeId>,
    pub next_sibling: Option<NodeId>,
    pub event_listeners: Vec<EventListenerEntry>,
    /// Marks this slot as freed (available for reuse).
    pub freed: bool,
}

/// The node type that a node kind denotes.
pub open spec fn kind_type(k: NodeKind) -> NodeType {
    match k {
        NodeKind::Document => NodeType::Document,
        NodeKind::Element(_) => NodeType::Element,
        NodeKind::Text(_) => NodeType::Text,
        NodeKind::Comment(_) => NodeType::Comment,
        NodeKind::DocumentFragment => NodeType::DocumentFragment,
    }
}

/// A node with no links, no listeners and not freed.
pub open spec fn is_fresh(n: NodeData) -> bool {
    &&& n.parent is None
    &&& n.first_child is None
    &&& n.last_child is None
    &&& n.prev_sibling is None
    &&& n.next_sibling is None
    &&& n.event_listeners@.len() == 0
    &&& !n.freed
}

impl NodeData {
    /// A detached node holding `kind`.
    pub fn new(kind: NodeKind) -> (n: Self)
        ensures
            n.kind == kind,
            is_fresh(n),
    {
        NodeData {
            kind,
            parent: None,
            first_child: None,
            last_child: None,
            prev_sibling: None,
            next_sibling: None,
            event_listeners: Vec::new(),
            freed: false,
        }
    }

    /// The type of this node.
    pub fn node_type(&self) -> (t: NodeType)
        ensures
            t == kind_type(self.kind),
    {
        match &self.kind {
            NodeKind::Document => NodeType::Document,
            NodeKind::Element(_) => NodeType::Element,
            NodeKind::Text(_) => NodeType::Text,
            NodeKind::Comment(_) => NodeType::Comment,
            NodeKind::DocumentFragment => NodeType::DocumentFragment,
        }
    }
}

} // verus!
