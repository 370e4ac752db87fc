use vstd::prelude::*;

verus! {

/// The mathematical content of an [`Element`].
pub struct ElementView {
    pub name: Seq<char>,
    pub attrs: Seq<(Seq<char>, Seq<char>)>,
    pub children: Seq<NodeView>,
}

/// The mathematical content of a [`Node`].
pub enum NodeView {
    Element(ElementView),
    Text(Seq<char>),
    Other,
}

/// A markup element: its tag name, its attributes in source order and its
/// children in document order.
#[derive(Debug, PartialEq, Eq)]
pub struct Element {
    pub name: String,
    pub attrs: Vec<(String, String)>,
    pub children: Vec<Node>,
}

/// A node of a document tree. `Other` stands for whatever is neither an
/// element nor text (a comment, a doctype, a processing instruction).
#[derive(Debug, PartialEq, Eq)]
pub enum Node {
    Element(Element),
    Text(String),
    Other,
}

impl View for Element {
    type V = ElementView;

    open spec fn view(&self) -> ElementView
        decreases self,
    {
        ElementView {
            name: self.name@,
            attrs: attrs_view(self.attrs@),
            children: nodes_view(self.children@),
        }
    }
}

impl View for Node {
    type V = NodeView;

    open spec fn view(&self) -> NodeView
        decreases self,
    {
        match self {
            Node::Element(element) => NodeView::Element(element@),
            Node::Text(text) => NodeView::Text(text@),
            Node::Other => NodeView::Other,
        }
    }
}

/// The contents of a sequence of attributes, one for one.
pub open spec fn attrs_view(attrs: Seq<(String, String)>) -> Seq<(Seq<char>, Seq<char>)> {
    Seq::new(attrs.len(), |i: int| (attrs[i].0@, attrs[i].1@))
}

/// The contents of a sequence of nodes, one for one.
pub open spec fn nodes_view(nodes: Seq<Node>) -> Seq<NodeView>
    decreases nodes,
{
    Seq::new(
        nodes.len(),
        |i: int|
            if 0 <= i < nodes.len() {
                nodes[i]@
            } else {
                arbitrary()
            },
    )
}

} // verus!
