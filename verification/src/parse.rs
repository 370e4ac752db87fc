use crate::dom::{nodes_view, Node, NodeView};
use crate::events::{build_forest, events_view, forest_of, Event, EventView};
use vstd::prelude::*;

verus! {

/// The depth-first walk through the top-level nodes of the document that
/// `scraper::Html::parse_document` builds from `html`.
pub uninterp spec fn document_events(html: Seq<char>) -> Seq<EventView>;

/// Calls `scraper::Html::parse_document` and walks through the tree it
/// returns: over `ego_tree::NodeRef::children` of the root, and through each
/// child with `ego_tree::NodeRef::traverse`. Entering an element gives `Open`
/// with what `scraper::node::Element::name` and `attrs` yield, entering a
/// text node gives `Text` with its text, entering any other node gives
/// `Other`, and leaving a node gives `Close`. The contract claims that the
/// walk depends on the text alone.
#[verifier::external_body]
fn parse_events(html: &str) -> (events: Vec<Event>)
    ensures
        events_view(events@) == document_events(html@),
{
    let document = scraper::Html::parse_document(html);
    document.tree.root().children().flat_map(|child| child.traverse()).map(|edge| match edge {
        ego_tree::iter::Edge::Open(node) => match node.value() {
            scraper::Node::Element(element) => Event::Open {
                name: element.name().to_string(),
                attrs: element.attrs().map(|(k, v)| (k.to_string(), v.to_string())).collect(),
            },
            scraper::Node::Text(text) => Event::Text(text.to_string()),
            _ => Event::Other,
        },
        ego_tree::iter::Edge::Close(_) => Event::Close,
    }).collect()
}

/// The top-level nodes of the document that the parser builds from `html`.
pub open spec fn document_nodes(html: Seq<char>) -> Seq<NodeView> {
    forest_of(document_events(html))
}

/// Parses a document and returns its top-level nodes in document order.
pub fn parse_document(html: &str) -> (nodes: Vec<Node>)
    ensures
        nodes_view(nodes@) == document_nodes(html@),
{
    let events = parse_events(html);
    build_forest(&events)
}

} // verus!
