use crate::dom::{attrs_view, nodes_view, Element, ElementView, Node, NodeView};
use vstd::prelude::*;

verus! {

/// The mathematical content of an [`Event`].
pub enum EventView {
    Open { name: Seq<char>, attrs: Seq<(Seq<char>, Seq<char>)> },
    Text(Seq<char>),
    Other,
    Close,
}

/// One step of a depth-first walk through a document. A node is entered by
/// `Open` (an element), `Text` or `Other` (anything else), its children
/// follow, and `Close` leaves it.
#[derive(Debug, PartialEq, Eq)]
pub enum Event {
    Open { name: String, attrs: Vec<(String, String)> },
    Text(String),
    Other,
    Close,
}

impl View for Event {
    type V = EventView;

    open spec fn view(&self) -> EventView {
        match self {
            Event::Open { name, attrs } => EventView::Open {
                name: name@,
                attrs: attrs_view(attrs@),
            },
            Event::Text(text) => EventView::Text(text@),
            Event::Other => EventView::Other,
            Event::Close => EventView::Close,
        }
    }
}

/// The contents of a sequence of events, one for one.
pub open spec fn events_view(events: Seq<Event>) -> Seq<EventView> {
    Seq::new(events.len(), |i: int| events[i]@)
}

/// The node that `entry` enters, given the nodes found below it. Only an
/// element keeps them.
pub open spec fn node_from(entry: EventView, children: Seq<NodeView>) -> NodeView {
    match entry {
        EventView::Open { name, attrs } => NodeView::Element(
            ElementView { name, attrs, children },
        ),
        EventView::Text(text) => NodeView::Text(text),
        _ => NodeView::Other,
    }
}

/// The sibling nodes that the events from `pos` on describe, and where the
/// walk stands after them: behind the `Close` that ends them, or at the end
/// of the events where none does. The children of a node always end behind
/// its entry (`lemma_forest_at_advances`), so its siblings are always read.
pub open spec fn forest_at(events: Seq<EventView>, pos: int) -> (Seq<NodeView>, int)
    decreases events.len() - pos,
{
    if pos < 0 || pos >= events.len() {
        (Seq::empty(), events.len() as int)
    } else if events[pos] is Close {
        (Seq::empty(), pos + 1)
    } else {
        let (children, after) = forest_at(events, pos + 1);
        if pos < after <= events.len() {
            let (siblings, end) = forest_at(events, after);
            (seq![node_from(events[pos], children)] + siblings, end)
        } else {
            (seq![node_from(events[pos], children)], after)
        }
    }
}

/// The top-level nodes that a walk describes.
pub open spec fn forest_of(events: Seq<EventView>) -> Seq<NodeView> {
    forest_at(events, 0).0
}

/// A walk from `pos` always ends behind `pos` and within the events.
pub proof fn lemma_forest_at_advances(events: Seq<EventView>, pos: int)
    requires
        0 <= pos <= events.len(),
    ensures
        pos <= forest_at(events, pos).1 <= events.len(),
        pos < events.len() ==> pos < forest_at(events, pos).1,
    decreases events.len() - pos,
{
    if pos < events.len() && !(events[pos] is Close) {
        lemma_forest_at_advances(events, pos + 1);
        let after = forest_at(events, pos + 1).1;
        lemma_forest_at_advances(events, after);
    }
}

/// The depth-first walk through one node: the node is entered, its children
/// are walked through, and it is left.
pub open spec fn walk_of_node(node: NodeView) -> Seq<EventView>
    decreases node, 0int,
{
    match node {
        NodeView::Element(element) => seq![
            EventView::Open { name: element.name, attrs: element.attrs },
        ] + walk_of(element.children) + seq![EventView::Close],
        NodeView::Text(text) => seq![EventView::Text(text), EventView::Close],
        NodeView::Other => seq![EventView::Other, EventView::Close],
    }
}

/// The depth-first walk through `nodes`, one after the other.
pub open spec fn walk_of(nodes: Seq<NodeView>) -> Seq<EventView>
    decreases nodes, 1int,
{
    if nodes.len() == 0 {
        Seq::empty()
    } else {
        walk_of_node(nodes.first()) + walk_of(nodes.drop_first())
    }
}

/// `part` stands in `events` from `pos` on.
pub open spec fn occurs_at(events: Seq<EventView>, pos: int, part: Seq<EventView>) -> bool {
    &&& 0 <= pos
    &&& pos + part.len() <= events.len()
    &&& forall|i: int| 0 <= i < part.len() ==> events[pos + i] == #[trigger] part[i]
}

/// Where the walk through `nodes` stands in `events` from `pos` on, reading
/// from `pos` gives `nodes`, and then what reading behind the walk gives.
pub proof fn lemma_forest_at_reads_walk(events: Seq<EventView>, pos: int, nodes: Seq<NodeView>)
    requires
        occurs_at(events, pos, walk_of(nodes)),
    ensures
        forest_at(events, pos).0 == nodes + forest_at(events, pos + walk_of(nodes).len()).0,
        forest_at(events, pos).1 == forest_at(events, pos + walk_of(nodes).len()).1,
    decreases nodes,
{
    if nodes.len() > 0 {
        let first = nodes.first();
        let rest = nodes.drop_first();
        let children = match first {
            NodeView::Element(element) => element.children,
            _ => Seq::empty(),
        };
        let depth = walk_of(children).len() as int;
        // The walk enters `first`, walks through its children, leaves it at
        // `1 + depth` and goes on with `rest`.
        let walk = walk_of(nodes);
        assert(walk[0] == walk_of_node(first)[0]);
        assert(walk[1 + depth] == EventView::Close);
        assert forall|i: int| 0 <= i < depth implies events[pos + 1 + i] == #[trigger] walk_of(
            children,
        )[i] by {
            assert(walk[1 + i] == walk_of(children)[i]);
            assert(events[pos + (1 + i)] == walk[1 + i]);
        }
        assert forall|i: int| 0 <= i < walk_of(rest).len() implies events[pos + 2 + depth + i]
            == #[trigger] walk_of(rest)[i] by {
            assert(walk[2 + depth + i] == walk_of(rest)[i]);
            assert(events[pos + (2 + depth + i)] == walk[2 + depth + i]);
        }
        match first {
            NodeView::Element(element) => {
                lemma_forest_at_reads_walk(events, pos + 1, element.children);
            },
            _ => {
                assert(children + forest_at(events, pos + 1).0 =~= forest_at(events, pos + 1).0);
            },
        }
        lemma_forest_at_reads_walk(events, pos + 2 + depth, rest);
    }
}

/// Reading the walk through a forest gives the forest back.
pub proof fn lemma_forest_of_walk(nodes: Seq<NodeView>)
    ensures
        forest_of(walk_of(nodes)) == nodes,
{
    lemma_forest_at_reads_walk(walk_of(nodes), 0, nodes);
}

/// A copy of the attributes.
fn copy_attrs(attrs: &Vec<(String, String)>) -> (copy: Vec<(String, String)>)
    ensures
        attrs_view(copy@) == attrs_view(attrs@),
{
    let mut copy: Vec<(String, String)> = Vec::new();
    let mut i: usize = 0;
    while i < attrs.len()
        invariant
            i <= attrs@.len(),
            copy@.len() == i,
            forall|j: int| 0 <= j < i ==> copy@[j].0@ == attrs@[j].0@ && copy@[j].1@ == attrs@[j].1@,
        decreases attrs@.len() - i,
    {
        copy.push((attrs[i].0.clone(), attrs[i].1.clone()));
        i += 1;
    }
    copy
}

/// Reads the sibling nodes that start at `pos`, and says where the walk
/// stands after them.
fn read_forest(events: &Vec<Event>, pos: usize) -> (read: (Vec<Node>, usize))
    requires
        pos <= events@.len(),
    ensures
        nodes_view(read.0@) == forest_at(events_view(events@), pos as int).0,
        read.1 == forest_at(events_view(events@), pos as int).1,
    decreases events@.len() - pos,
{
    let ghost walk = events_view(events@);
    let mut nodes: Vec<Node> = Vec::new();
    let mut at: usize = pos;
    loop
        invariant
            walk == events_view(events@),
            pos <= at <= events@.len(),
            forest_at(walk, pos as int).0 == nodes_view(nodes@) + forest_at(walk, at as int).0,
            forest_at(walk, pos as int).1 == forest_at(walk, at as int).1,
        decreases events@.len() - at,
    {
        if at >= events.len() {
            return (nodes, at);
        }
        if let Event::Close = &events[at] {
            return (nodes, at + 1);
        }
        let (children, after) = read_forest(events, at + 1);
        proof {
            lemma_forest_at_advances(walk, at + 1);
        }
        let node = match &events[at] {
            Event::Open { name, attrs } => Node::Element(
                Element { name: name.clone(), attrs: copy_attrs(attrs), children },
            ),
            Event::Text(text) => Node::Text(text.clone()),
            _ => Node::Other,
        };
        nodes.push(node);
        at = after;
    }
}

/// Builds the top-level nodes of a document from a walk through it.
pub fn build_forest(events: &Vec<Event>) -> (nodes: Vec<Node>)
    ensures
        nodes_view(nodes@) == forest_of(events_view(events@)),
{
    read_forest(events, 0).0
}

} // verus!
