//! The document tree, kept as an arena of nodes in document order.
//!
//! Node `0` is the document node. Every other node names its parent by index,
//! and a parent always stands before its children, so walking the arena from
//! the first index to the last is a pre-order walk of the tree.
use crate::text::str_eq;
use vstd::prelude::*;

verus! {

/// The element kinds this engine tells apart.
#[derive(Debug, Clone, Copy, PartialEq, Eq, Structural)]
pub enum ElementKind {
    Html,
    Head,
    Style,
    Script,
    Body,
    H1,
    H2,
    P,
    Pre,
    A,
    Img,
    Input,
    Div,
    Span,
    Ul,
    Li,
    Unknown,
}

impl ElementKind {
    pub open spec fn spec_is_block(self) -> bool {
        match self {
            ElementKind::Html | ElementKind::Body | ElementKind::H1 | ElementKind::H2
            | ElementKind::P | ElementKind::Pre | ElementKind::Div | ElementKind::Ul
            | ElementKind::Li => true,
            _ => false,
        }
    }

    /// Whether elements of this kind are laid out as blocks by default.
    pub fn is_block_element(&self) -> (r: bool)
        ensures
            r == self.spec_is_block(),
    {
        match self {
            ElementKind::Html | ElementKind::Body | ElementKind::H1 | ElementKind::H2
            | ElementKind::P | ElementKind::Pre | ElementKind::Div | ElementKind::Ul
            | ElementKind::Li => true,
            _ => false,
        }
    }
}

/// One `name="value"` pair of an element.
#[derive(Debug)]
pub struct Attribute {
    pub name: String,
    pub value: String,
}

impl Attribute {
    pub fn new(name: String, value: String) -> (r: Attribute)
        ensures
            r.name@ == name@,
            r.value@ == value@,
    {
        Attribute { name, value }
    }

    pub fn duplicate(&self) -> (r: Attribute)
        ensures
            r.name@ == self.name@,
            r.value@ == self.value@,
    {
        Attribute { name: self.name.clone(), value: self.value.clone() }
    }
}

/// The value of the first attribute named `name`, if any.
pub open spec fn attribute_value(attrs: Seq<Attribute>, name: Seq<char>) -> Option<Seq<char>>
    decreases attrs.len(),
{
    if attrs.len() == 0 {
        None
    } else if attrs[0].name@ == name {
        Some(attrs[0].value@)
    } else {
        attribute_value(attrs.drop_first(), name)
    }
}

/// An element node: its kind, its attributes and, for inputs, the edited value.
#[derive(Debug)]
pub struct Element {
    pub kind: ElementKind,
    pub attributes: Vec<Attribute>,
    pub value: Option<String>,
}

impl Element {
    pub fn new(kind: ElementKind, attributes: Vec<Attribute>) -> (r: Element)
        ensures
            r.kind == kind,
            r.attributes@ == attributes@,
            r.value is None,
    {
        Element { kind, attributes, value: None }
    }

    pub fn kind(&self) -> (r: ElementKind)
        ensures
            r == self.kind,
    {
        self.kind
    }

    /// Looks up an attribute by name; the first one of that name wins.
    pub fn get_attribute(&self, name: &str) -> (r: Option<String>)
        ensures
            r matches Some(v) ==> attribute_value(self.attributes@, name@) == Some(v@),
            r is None ==> attribute_value(self.attributes@, name@) is None,
    {
        let mut i: usize = 0;
        assert(self.attributes@.skip(0) =~= self.attributes@);
        while i < self.attributes.len()
            invariant
                i <= self.attributes@.len(),
                attribute_value(self.attributes@, name@) == attribute_value(
                    self.attributes@.skip(i as int),
                    name@,
                ),
            decreases self.attributes@.len() - i,
        {
            let ghost rest = self.attributes@.skip(i as int);
            if str_eq(self.attributes[i].name.as_str(), name) {
                return Some(self.attributes[i].value.clone());
            }
            assert(rest.drop_first() =~= self.attributes@.skip(i + 1));
            i = i + 1;
        }
        None
    }
}

/// What a node is.
#[derive(Debug)]
pub enum NodeKind {
    Document,
    Element(Element),
    Text(String),
}

/// One node of the arena.
#[derive(Debug)]
pub struct Node {
    pub kind: NodeKind,
    pub parent: Option<usize>,
}

impl Node {
    pub fn kind(&self) -> (r: &NodeKind)
        ensures
            r == &self.kind,
    {
        &self.kind
    }

    pub fn parent(&self) -> (r: Option<usize>)
        ensures
            r == self.parent,
    {
        self.parent
    }
}

/// What a node holds, with its strings seen as character sequences.
pub enum NodeData {
    Document,
    /// Kind, `(name, value)` attributes, and the edited value.
    Element(ElementKind, Seq<(Seq<char>, Seq<char>)>, Option<Seq<char>>),
    Text(Seq<char>),
}

pub struct NodeView {
    pub data: NodeData,
    pub parent: Option<usize>,
}

pub open spec fn attributes_view(attrs: Seq<Attribute>) -> Seq<(Seq<char>, Seq<char>)> {
    attrs.map_values(|a: Attribute| (a.name@, a.value@))
}

pub open spec fn node_data(k: NodeKind) -> NodeData {
    match k {
        NodeKind::Document => NodeData::Document,
        NodeKind::Element(e) => NodeData::Element(
            e.kind,
            attributes_view(e.attributes@),
            match e.value {
                Some(v) => Some(v@),
                None => None,
            },
        ),
        NodeKind::Text(t) => NodeData::Text(t@),
    }
}

impl Node {
    pub open spec fn view(self) -> NodeView {
        NodeView { data: node_data(self.kind), parent: self.parent }
    }
}

/// A document tree.
#[derive(Debug)]
pub struct Document {
    pub nodes: Vec<Node>,
}

impl Document {
    /// Node `0` is the document; each other node has a parent standing
    /// before it that is not a text node.
    pub open spec fn wf(&self) -> bool {
        &&& self.nodes@.len() >= 1
        &&& self.nodes@[0].kind is Document
        &&& self.nodes@[0].parent is None
        &&& forall|i: int|
            #![trigger self.nodes@[i]]
            0 < i < self.nodes@.len() ==> {
                &&& self.nodes@[i].parent matches Some(p)
                &&& p < i
                &&& !(self.nodes@[p as int].kind is Text)
                &&& !(self.nodes@[i].kind is Document)
            }
    }

    /// The nodes, with their strings seen as character sequences.
    pub open spec fn view(&self) -> Seq<NodeView> {
        self.nodes@.map_values(|n: Node| n.view())
    }

    pub open spec fn len(&self) -> nat {
        self.nodes@.len()
    }

    /// The parent of node `i` (a node before `i`).
    pub open spec fn parent_of(&self, i: int) -> int {
        match self.nodes@[i].parent {
            Some(p) => p as int,
            None => -1,
        }
    }

    /// `a` is `i` itself or one of its ancestors.
    pub open spec fn is_ancestor_or_self(&self, a: int, i: int) -> bool
        decreases i,
    {
        if a == i {
            true
        } else if 0 < i < self.nodes@.len() && 0 <= self.parent_of(i) < i {
            self.is_ancestor_or_self(a, self.parent_of(i))
        } else {
            false
        }
    }

    /// A document holding only the document node.
    pub fn new() -> (r: Document)
        ensures
            r.wf(),
            r.len() == 1,
            r.view() == seq![NodeView { data: NodeData::Document, parent: None }],
    {
        let mut nodes: Vec<Node> = Vec::new();
        nodes.push(Node { kind: NodeKind::Document, parent: None });
        let r = Document { nodes };
        assert(r.view() =~= seq![NodeView { data: NodeData::Document, parent: None }]);
        r
    }

    pub fn num_nodes(&self) -> (r: usize)
        ensures
            r == self.len(),
    {
        self.nodes.len()
    }

    /// Appends `kind` as the last child of `parent`. The parent must lie on
    /// the path from the root to the last node, so that document order stays
    /// the order of the arena.
    pub fn append(&mut self, parent: usize, kind: NodeKind) -> (r: usize)
        requires
            old(self).wf(),
            parent < old(self).len(),
            !(old(self).nodes@[parent as int].kind is Text),
            !(kind is Document),
            old(self).is_ancestor_or_self(parent as int, old(self).len() - 1),
            old(self).len() < usize::MAX,
        ensures
            final(self).wf(),
            r == old(self).len(),
            final(self).nodes@ == old(self).nodes@.push(Node { kind, parent: Some(parent) }),
    {
        let r = self.nodes.len();
        self.nodes.push(Node { kind, parent: Some(parent) });
        r
    }

    pub fn append_element(&mut self, parent: usize, e: Element) -> (r: usize)
        requires
            old(self).wf(),
            parent < old(self).len(),
            !(old(self).nodes@[parent as int].kind is Text),
            old(self).is_ancestor_or_self(parent as int, old(self).len() - 1),
            old(self).len() < usize::MAX,
        ensures
            final(self).wf(),
            r == old(self).len(),
            final(self).nodes@ == old(self).nodes@.push(
                Node { kind: NodeKind::Element(e), parent: Some(parent) },
            ),
    {
        self.append(parent, NodeKind::Element(e))
    }

    pub fn append_text(&mut self, parent: usize, t: String) -> (r: usize)
        requires
            old(self).wf(),
            parent < old(self).len(),
            !(old(self).nodes@[parent as int].kind is Text),
            old(self).is_ancestor_or_self(parent as int, old(self).len() - 1),
            old(self).len() < usize::MAX,
        ensures
            final(self).wf(),
            r == old(self).len(),
            final(self).nodes@ == old(self).nodes@.push(
                Node { kind: NodeKind::Text(t), parent: Some(parent) },
            ),
    {
        self.append(parent, NodeKind::Text(t))
    }

    pub fn node(&self, i: usize) -> (r: &Node)
        requires
            i < self.len(),
        ensures
            r == &self.nodes@[i as int],
    {
        &self.nodes[i]
    }
}

} // verus!
