use crate::dom::{attrs_view, nodes_view, Element, ElementView, Node, NodeView};
use crate::text::{trim, trimmed};
use crate::value::{merge, put, Table, TableView, Toml, TomlView};
use vstd::prelude::*;
use vstd::string::StringExecFns;

verus! {

/// The key under which an element's own text is stored.
pub open spec fn text_key() -> Seq<char> {
    "text"@
}

/// The table that holds the attributes alone: each under its name, as a
/// string, in source order; of a repeated name the last value stays.
pub open spec fn attrs_table(attrs: Seq<(Seq<char>, Seq<char>)>) -> TableView
    decreases attrs.len(),
{
    if attrs.len() == 0 {
        TableView::empty()
    } else {
        put(attrs_table(attrs.drop_last()), attrs.last().0, TomlView::String(attrs.last().1))
    }
}

/// Some child is an element.
pub open spec fn has_child_element(children: Seq<NodeView>) -> bool {
    exists|i: int| 0 <= i < children.len() && children[i] is Element
}

/// The text of the text children, in document order, each followed by one
/// space.
pub open spec fn text_of(children: Seq<NodeView>) -> Seq<char>
    decreases children.len(),
{
    if children.len() == 0 {
        Seq::empty()
    } else {
        match children.last() {
            NodeView::Text(text) => text_of(children.drop_last()) + text + seq![' '],
            _ => text_of(children.drop_last()),
        }
    }
}

/// What an element contributes: nothing if its table is empty, else the
/// table.
pub open spec fn element_value(element: ElementView) -> Option<TomlView>
    decreases element, 1int,
{
    let table = element_table(element);
    if table.len() == 0 {
        None
    } else {
        Some(TomlView::Table(table))
    }
}

/// The table of an element: its attributes, then what its child elements
/// contribute, each under its tag name with repeated names grouped; and,
/// only where no child is an element and the text is not blank, the trimmed
/// text under `text`.
pub open spec fn element_table(element: ElementView) -> TableView
    decreases element, 0int,
{
    let table = with_nodes(attrs_table(element.attrs), element.children);
    let text = trimmed(text_of(element.children));
    if !has_child_element(element.children) && text.len() > 0 {
        put(table, text_key(), TomlView::String(text))
    } else {
        table
    }
}

/// `table` after the elements among `nodes` have been added in document
/// order: each one that contributes a value adds it under its tag name,
/// grouped with what the name holds already.
pub open spec fn with_nodes(table: TableView, nodes: Seq<NodeView>) -> TableView
    decreases nodes, 0int,
{
    if nodes.len() == 0 {
        table
    } else {
        with_node(with_nodes(table, nodes.drop_last()), nodes.last())
    }
}

/// `table` after one node has been added.
pub open spec fn with_node(table: TableView, node: NodeView) -> TableView
    decreases node, 0int,
{
    match node {
        NodeView::Element(element) => match element_value(element) {
            Some(value) => merge(table, element.name, value),
            None => table,
        },
        _ => table,
    }
}

/// The table of a whole document, from its top-level nodes.
pub open spec fn document_table(nodes: Seq<NodeView>) -> TableView {
    with_nodes(TableView::empty(), nodes)
}

/// Among nodes there is an element exactly if the last one is an element
/// or there is one among those before it.
pub proof fn lemma_has_child_element_grows(nodes: Seq<NodeView>)
    requires
        nodes.len() > 0,
    ensures
        has_child_element(nodes) == (has_child_element(nodes.drop_last()) || nodes.last()
            is Element),
{
    let before = nodes.drop_last();
    if has_child_element(before) {
        let k = choose|k: int| 0 <= k < before.len() && before[k] is Element;
        assert(nodes[k] is Element);
    }
    if has_child_element(nodes) && !(nodes.last() is Element) {
        let k = choose|k: int| 0 <= k < nodes.len() && nodes[k] is Element;
        assert(before[k] is Element);
    }
}

/// The table that holds the attributes alone.
fn attrs_to_table(attrs: &Vec<(String, String)>) -> (table: Table)
    ensures
        table@ == attrs_table(attrs_view(attrs@)),
{
    let mut table = Table::new();
    let mut i: usize = 0;
    while i < attrs.len()
        invariant
            i <= attrs@.len(),
            table@ == attrs_table(attrs_view(attrs@).take(i as int)),
        decreases attrs@.len() - i,
    {
        let ghost seen = attrs_view(attrs@).take(i as int);
        let ghost next = attrs_view(attrs@).take(i + 1);
        assert(next.drop_last() =~= seen);
        table.insert(attrs[i].0.clone(), Toml::String(attrs[i].1.clone()));
        i += 1;
    }
    assert(attrs_view(attrs@).take(attrs@.len() as int) =~= attrs_view(attrs@));
    table
}

/// Maps an element to the value it contributes: `None` if it has no
/// attribute, no child element that contributes and no text but white
/// space; else the table of its attributes, of what its child elements
/// contribute and, where no child is an element, of its trimmed text.
pub fn element_to_toml(element: &Element) -> (mapped: Option<Toml>)
    ensures
        match mapped {
            Some(value) => element_value(element@) == Some(value@) && value is Table,
            None => element_value(element@) is None,
        },
    decreases element, 0int,
{
    let mut table = attrs_to_table(&element.attrs);
    let mut has_child_elements = false;
    let mut text = String::new();
    let mut i: usize = 0;
    let ghost children = element@.children;
    while i < element.children.len()
        invariant
            i <= element.children@.len(),
            children == nodes_view(element.children@),
            table@ == with_nodes(attrs_table(element@.attrs), children.take(i as int)),
            text@ == text_of(children.take(i as int)),
            has_child_elements == has_child_element(children.take(i as int)),
        decreases element.children@.len() - i,
    {
        let ghost seen = children.take(i as int);
        let ghost next = children.take(i + 1);
        assert(next.drop_last() =~= seen);
        assert(with_nodes(attrs_table(element@.attrs), next) == with_node(
            with_nodes(attrs_table(element@.attrs), seen),
            next.last(),
        ));
        match &element.children[i] {
            Node::Element(child) => {
                has_child_elements = true;
                merge_element(&mut table, child);
            },
            Node::Text(fragment) => {
                text.append(fragment.as_str());
                text.append(" ");
                proof {
                    reveal_strlit(" ");
                }
            },
            Node::Other => {},
        }
        proof {
            lemma_has_child_element_grows(next);
        }
        i += 1;
    }
    assert(children.take(children.len() as int) =~= children);
    if !has_child_elements {
        let own_text = trim(text.as_str());
        if !own_text.as_str().is_empty() {
            proof {
                reveal_strlit("text");
            }
            table.insert("text".to_owned(), Toml::String(own_text));
        }
    }
    if table.is_empty() {
        None
    } else {
        Some(Toml::Table(table))
    }
}

/// Adds what `element` contributes to `table`, under its tag name and
/// grouped with what the name holds already; nothing where it contributes
/// nothing.
pub fn merge_element(table: &mut Table, element: &Element)
    ensures
        final(table)@ == with_node(old(table)@, NodeView::Element(element@)),
    decreases element, 1int,
{
    match element_to_toml(element) {
        Some(value) => {
            table.merge(element.name.clone(), value);
        },
        None => {},
    }
}

/// Maps the top-level nodes of a document to its table: each element that
/// contributes a value adds it under its tag name, in document order, with
/// repeated names grouped.
pub fn document_to_toml(nodes: &Vec<Node>) -> (table: Table)
    ensures
        table@ == document_table(nodes_view(nodes@)),
{
    let mut table = Table::new();
    let mut i: usize = 0;
    while i < nodes.len()
        invariant
            i <= nodes@.len(),
            table@ == document_table(nodes_view(nodes@).take(i as int)),
        decreases nodes@.len() - i,
    {
        let ghost seen = nodes_view(nodes@).take(i as int);
        let ghost next = nodes_view(nodes@).take(i + 1);
        assert(next.drop_last() =~= seen);
        assert(document_table(next) == with_node(document_table(seen), next.last()));
        match &nodes[i] {
            Node::Element(element) => {
                merge_element(&mut table, element);
            },
            _ => {},
        }
        i += 1;
    }
    assert(nodes_view(nodes@).take(nodes@.len() as int) =~= nodes_view(nodes@));
    table
}

} // verus!
