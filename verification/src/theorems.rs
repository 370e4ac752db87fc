use crate::dom::{ElementView, NodeView};
use crate::mapper::{
    attrs_table, document_table, element_table, element_value, has_child_element, text_key,
    text_of, with_node, with_nodes,
};
use crate::text::{is_blank, lemma_trimmed_empty_iff_blank, trimmed};
use crate::value::{
    has_key, index_of, keys_distinct, lemma_index_of_last, lemma_merge_keeps_keys_distinct,
    lemma_put_keeps_keys_distinct, merge, put, TableView, TomlView,
};
use vstd::prelude::*;

verus! {

/// A node that is no element and holds no text but white space.
pub open spec fn is_blank_node(node: NodeView) -> bool {
    match node {
        NodeView::Element(_) => false,
        NodeView::Text(text) => is_blank(text),
        NodeView::Other => true,
    }
}

/// Nodes among which there is no element leave a table as it is.
pub proof fn lemma_only_elements_add_entries(table: TableView, nodes: Seq<NodeView>)
    requires
        !has_child_element(nodes),
    ensures
        with_nodes(table, nodes) == table,
    decreases nodes.len(),
{
    if nodes.len() > 0 {
        lemma_only_elements_add_entries(table, nodes.drop_last());
        assert(with_node(table, nodes.last()) == table);
    }
}

/// Blank nodes make a text that is all white space: the space put behind
/// each fragment is white space too.
pub proof fn lemma_blank_nodes_make_blank_text(nodes: Seq<NodeView>)
    requires
        forall|i: int| 0 <= i < nodes.len() ==> is_blank_node(#[trigger] nodes[i]),
    ensures
        is_blank(text_of(nodes)),
        !has_child_element(nodes),
    decreases nodes.len(),
{
    if nodes.len() > 0 {
        lemma_blank_nodes_make_blank_text(nodes.drop_last());
    }
}

/// An element without attributes and without children contributes nothing.
pub proof fn lemma_bare_element_gives_nothing(element: ElementView)
    requires
        element.attrs.len() == 0,
        element.children.len() == 0,
    ensures
        element_value(element) is None,
{
}

/// An element without attributes whose children are all blank (text of
/// white space only, or neither text nor element) contributes nothing.
pub proof fn lemma_blank_element_gives_nothing(element: ElementView)
    requires
        element.attrs.len() == 0,
        forall|i: int|
            0 <= i < element.children.len() ==> is_blank_node(#[trigger] element.children[i]),
    ensures
        element_value(element) is None,
{
    lemma_blank_nodes_make_blank_text(element.children);
    lemma_only_elements_add_entries(attrs_table(element.attrs), element.children);
    lemma_trimmed_empty_iff_blank(text_of(element.children));
}

/// Adding nodes in two runs is adding them in one.
pub proof fn lemma_with_nodes_in_two_runs(
    table: TableView,
    first: Seq<NodeView>,
    second: Seq<NodeView>,
)
    ensures
        with_nodes(table, first + second) == with_nodes(with_nodes(table, first), second),
    decreases second.len(),
{
    if second.len() > 0 {
        assert((first + second).drop_last() =~= first + second.drop_last());
        lemma_with_nodes_in_two_runs(table, first, second.drop_last());
    }
}

/// Where a single node among `nodes` is an element, the others add nothing.
pub proof fn lemma_with_nodes_single_element(table: TableView, nodes: Seq<NodeView>, k: int)
    requires
        0 <= k < nodes.len(),
        forall|i: int| 0 <= i < nodes.len() && i != k ==> !(nodes[i] is Element),
    ensures
        with_nodes(table, nodes) == with_node(table, nodes[k]),
{
    let before = nodes.take(k);
    let after = nodes.skip(k + 1);
    assert(nodes =~= before + seq![nodes[k]] + after);
    lemma_with_nodes_in_two_runs(table, before + seq![nodes[k]], after);
    lemma_with_nodes_in_two_runs(table, before, seq![nodes[k]]);
    lemma_only_elements_add_entries(table, before);
    lemma_only_elements_add_entries(with_node(table, nodes[k]), after);
    assert(with_nodes(table, seq![nodes[k]]) == with_node(
        with_nodes(table, seq![nodes[k]].drop_last()),
        seq![nodes[k]].last(),
    ));
}

/// Where two nodes among `nodes` are elements, the others add nothing.
pub proof fn lemma_with_nodes_two_elements(table: TableView, nodes: Seq<NodeView>, j: int, k: int)
    requires
        0 <= j < k < nodes.len(),
        forall|i: int| 0 <= i < nodes.len() && i != j && i != k ==> !(nodes[i] is Element),
    ensures
        with_nodes(table, nodes) == with_node(with_node(table, nodes[j]), nodes[k]),
{
    let before = nodes.take(k);
    let after = nodes.skip(k);
    assert(nodes =~= before + after);
    lemma_with_nodes_in_two_runs(table, before, after);
    lemma_with_nodes_single_element(table, before, j);
    lemma_with_nodes_single_element(with_node(table, nodes[j]), after, 0);
}

/// A single child element that contributes a value hands it to its parent
/// bare: the parent's table holds it under the child's tag name, behind the
/// attributes, and not wrapped in a sequence.
pub proof fn lemma_single_child_stays_bare(element: ElementView, child: ElementView, k: int)
    requires
        0 <= k < element.children.len(),
        element.children[k] == NodeView::Element(child),
        forall|i: int|
            0 <= i < element.children.len() && i != k ==> !(element.children[i] is Element),
        element_value(child) is Some,
        !has_key(attrs_table(element.attrs), child.name),
    ensures
        element_table(element) == attrs_table(element.attrs).push(
            (child.name, element_value(child).unwrap()),
        ),
{
    lemma_with_nodes_single_element(attrs_table(element.attrs), element.children, k);
}

/// Two child elements with one tag name that both contribute a value are
/// grouped: the parent's table holds under that name the sequence of the two
/// values, in document order.
pub proof fn lemma_repeated_children_are_grouped(
    element: ElementView,
    first: ElementView,
    second: ElementView,
    j: int,
    k: int,
)
    requires
        0 <= j < k < element.children.len(),
        element.children[j] == NodeView::Element(first),
        element.children[k] == NodeView::Element(second),
        forall|i: int|
            0 <= i < element.children.len() && i != j && i != k ==> !(element.children[i]
                is Element),
        first.name == second.name,
        element_value(first) is Some,
        element_value(second) is Some,
        !has_key(attrs_table(element.attrs), first.name),
    ensures
        element_table(element) == attrs_table(element.attrs).push(
            (
                first.name,
                TomlView::Array(seq![element_value(first).unwrap(), element_value(second).unwrap()]),
            ),
        ),
{
    let attrs = attrs_table(element.attrs);
    lemma_with_nodes_two_elements(attrs, element.children, j, k);
    lemma_index_of_last(attrs, first.name, element_value(first).unwrap());
}

/// Beside a child element an element's own text is dropped: its table holds
/// the attributes and what the child elements contribute, nothing else.
pub proof fn lemma_text_dropped_beside_elements(element: ElementView)
    requires
        has_child_element(element.children),
    ensures
        element_table(element) == with_nodes(attrs_table(element.attrs), element.children),
{
}

/// Some element among `nodes` has the tag name `name`.
pub open spec fn has_element_named(nodes: Seq<NodeView>, name: Seq<char>) -> bool {
    exists|i: int|
        0 <= i < nodes.len() && (#[trigger] nodes[i]) is Element && nodes[i]->Element_0.name == name
}

/// Adding nodes to a table brings no key but the tag names of the elements
/// among them.
pub proof fn lemma_keys_of_with_nodes(table: TableView, nodes: Seq<NodeView>, key: Seq<char>)
    requires
        has_key(with_nodes(table, nodes), key),
    ensures
        has_key(table, key) || has_element_named(nodes, key),
    decreases nodes.len(),
{
    if nodes.len() > 0 {
        let rest = nodes.drop_last();
        let before = with_nodes(table, rest);
        if has_key(before, key) {
            lemma_keys_of_with_nodes(table, rest, key);
            if has_element_named(rest, key) {
                let i = choose|i: int|
                    0 <= i < rest.len() && (#[trigger] rest[i]) is Element
                        && rest[i]->Element_0.name == key;
                assert(nodes[i] == rest[i]);
            }
        } else {
            // The key came with the last node, so that node is an element
            // of that name.
            let at = index_of(with_node(before, nodes.last()), key);
            assert(nodes[nodes.len() - 1] is Element);
            assert(nodes[nodes.len() - 1]->Element_0.name != key ==> before[at].0 == key);
        }
    }
}

/// Beside a child element the key `text` stands in an element's table only
/// if an attribute or a child element has that name.
pub proof fn lemma_no_text_key_beside_elements(element: ElementView)
    requires
        has_child_element(element.children),
        !has_key(attrs_table(element.attrs), text_key()),
        !has_element_named(element.children, text_key()),
    ensures
        !has_key(element_table(element), text_key()),
{
    if has_key(element_table(element), text_key()) {
        lemma_keys_of_with_nodes(attrs_table(element.attrs), element.children, text_key());
    }
}

/// An element with nothing but text that is not blank maps to the table
/// with the single key `text` and the text, trimmed at both ends and
/// otherwise as it is.
pub proof fn lemma_text_only_element(element: ElementView)
    requires
        element.attrs.len() == 0,
        !has_child_element(element.children),
        !is_blank(text_of(element.children)),
    ensures
        element_value(element) == Some(
            TomlView::Table(
                seq![(text_key(), TomlView::String(trimmed(text_of(element.children))))],
            ),
        ),
{
    lemma_only_elements_add_entries(attrs_table(element.attrs), element.children);
    lemma_trimmed_empty_iff_blank(text_of(element.children));
}

/// `longer` begins with the keys of `shorter`, in the same places.
pub open spec fn begins_with_keys_of(longer: TableView, shorter: TableView) -> bool {
    &&& shorter.len() <= longer.len()
    &&& forall|i: int| 0 <= i < shorter.len() ==> (#[trigger] longer[i]).0 == shorter[i].0
}

/// Plain insertion moves no key.
pub proof fn lemma_put_moves_no_key(table: TableView, key: Seq<char>, value: TomlView)
    ensures
        begins_with_keys_of(put(table, key, value), table),
{
}

/// Grouping insertion moves no key.
pub proof fn lemma_merge_moves_no_key(table: TableView, key: Seq<char>, value: TomlView)
    ensures
        begins_with_keys_of(merge(table, key, value), table),
{
}

/// Adding nodes moves no key.
pub proof fn lemma_with_nodes_moves_no_key(table: TableView, nodes: Seq<NodeView>)
    ensures
        begins_with_keys_of(with_nodes(table, nodes), table),
    decreases nodes.len(),
{
    if nodes.len() > 0 {
        let before = with_nodes(table, nodes.drop_last());
        lemma_with_nodes_moves_no_key(table, nodes.drop_last());
        assert(begins_with_keys_of(with_node(before, nodes.last()), before));
    }
}

/// Attributes come first: an element's table begins with the keys of its
/// attributes, in their order; what child elements and text add follows.
pub proof fn lemma_attributes_come_first(element: ElementView)
    ensures
        begins_with_keys_of(element_table(element), attrs_table(element.attrs)),
{
    lemma_with_nodes_moves_no_key(attrs_table(element.attrs), element.children);
}

/// An element with attributes and text alone maps to the table of its
/// attributes with the trimmed text stored under `text`: behind them, if no
/// attribute has that name.
pub proof fn lemma_attributes_then_text(element: ElementView)
    requires
        !has_child_element(element.children),
        !is_blank(text_of(element.children)),
    ensures
        element_table(element) == put(
            attrs_table(element.attrs),
            text_key(),
            TomlView::String(trimmed(text_of(element.children))),
        ),
        !has_key(attrs_table(element.attrs), text_key()) ==> element_table(element)
            == attrs_table(element.attrs).push(
            (text_key(), TomlView::String(trimmed(text_of(element.children)))),
        ),
{
    lemma_only_elements_add_entries(attrs_table(element.attrs), element.children);
    lemma_trimmed_empty_iff_blank(text_of(element.children));
}

/// Every table within `value` has an entry and has no key twice.
pub open spec fn is_sound(value: TomlView) -> bool
    decreases value,
{
    match value {
        TomlView::String(_) => true,
        TomlView::Table(table) => table.len() > 0 && is_sound_table(table),
        TomlView::Array(items) => forall|i: int|
            0 <= i < items.len() ==> is_sound(#[trigger] items[i]),
    }
}

/// No key of `table` occurs twice, and every table within its values has an
/// entry and has no key twice.
pub open spec fn is_sound_table(table: TableView) -> bool
    decreases table,
{
    keys_distinct(table) && forall|i: int|
        0 <= i < table.len() ==> is_sound((#[trigger] table[i]).1)
}

/// Plain insertion of a sound value keeps a table sound.
pub proof fn lemma_put_keeps_sound(table: TableView, key: Seq<char>, value: TomlView)
    requires
        is_sound_table(table),
        is_sound(value),
    ensures
        is_sound_table(put(table, key, value)),
        put(table, key, value).len() > 0,
{
    lemma_put_keeps_keys_distinct(table, key, value);
}

/// Grouping insertion of a sound value keeps a table sound.
pub proof fn lemma_merge_keeps_sound(table: TableView, key: Seq<char>, value: TomlView)
    requires
        is_sound_table(table),
        is_sound(value),
    ensures
        is_sound_table(merge(table, key, value)),
        merge(table, key, value).len() > 0,
{
    lemma_merge_keeps_keys_distinct(table, key, value);
    if has_key(table, key) {
        // What the key holds is sound, and so is what it is joined into.
        assert(is_sound(table[index_of(table, key)].1));
    }
}

/// The table of the attributes is sound, and empty only where there is no
/// attribute.
pub proof fn lemma_attrs_table_sound(attrs: Seq<(Seq<char>, Seq<char>)>)
    ensures
        is_sound_table(attrs_table(attrs)),
        attrs_table(attrs).len() == 0 <==> attrs.len() == 0,
    decreases attrs.len(),
{
    if attrs.len() > 0 {
        lemma_attrs_table_sound(attrs.drop_last());
        lemma_put_keeps_sound(
            attrs_table(attrs.drop_last()),
            attrs.last().0,
            TomlView::String(attrs.last().1),
        );
    }
}

/// What an element contributes is sound: no table within it is empty, and
/// none has a key twice.
pub proof fn lemma_element_value_sound(element: ElementView)
    ensures
        is_sound_table(element_table(element)),
        element_value(element) matches Some(value) ==> is_sound(value),
    decreases element, 1int,
{
    lemma_attrs_table_sound(element.attrs);
    lemma_with_nodes_sound(attrs_table(element.attrs), element.children);
    lemma_put_keeps_sound(
        with_nodes(attrs_table(element.attrs), element.children),
        text_key(),
        TomlView::String(trimmed(text_of(element.children))),
    );
}

/// Adding nodes keeps a table sound.
pub proof fn lemma_with_nodes_sound(table: TableView, nodes: Seq<NodeView>)
    requires
        is_sound_table(table),
    ensures
        is_sound_table(with_nodes(table, nodes)),
    decreases nodes, 0int,
{
    if nodes.len() > 0 {
        lemma_with_nodes_sound(table, nodes.drop_last());
        let before = with_nodes(table, nodes.drop_last());
        assert(with_nodes(table, nodes) == with_node(before, nodes.last()));
        match nodes.last() {
            NodeView::Element(child) => {
                lemma_element_value_sound(child);
                if element_value(child) is Some {
                    lemma_merge_keeps_sound(before, child.name, element_value(child).unwrap());
                }
            },
            _ => {},
        }
    }
}

/// The table of a document is sound, whatever its nodes.
pub proof fn lemma_document_table_sound(nodes: Seq<NodeView>)
    ensures
        is_sound_table(document_table(nodes)),
{
    lemma_with_nodes_sound(TableView::empty(), nodes);
}

/// A node that contributes a value: an element that maps to one.
pub open spec fn contributes(node: NodeView) -> bool {
    node matches NodeView::Element(element) && element_value(element) is Some
}

/// Nodes of which none contributes leave a table as it is; where one does,
/// the table is not empty afterwards. A table never loses an entry.
pub proof fn lemma_with_nodes_len(table: TableView, nodes: Seq<NodeView>)
    ensures
        table.len() <= with_nodes(table, nodes).len(),
        (forall|i: int| 0 <= i < nodes.len() ==> !contributes(#[trigger] nodes[i])) ==> with_nodes(
            table,
            nodes,
        ) == table,
        (exists|i: int| 0 <= i < nodes.len() && contributes(#[trigger] nodes[i])) ==> with_nodes(
            table,
            nodes,
        ).len() > 0,
    decreases nodes.len(),
{
    if nodes.len() > 0 {
        let rest = nodes.drop_last();
        lemma_with_nodes_len(table, rest);
        assert(with_nodes(table, nodes) == with_node(with_nodes(table, rest), nodes.last()));
        if forall|i: int| 0 <= i < nodes.len() ==> !contributes(#[trigger] nodes[i]) {
            assert forall|i: int| 0 <= i < rest.len() implies !contributes(#[trigger] rest[i]) by {
                assert(rest[i] == nodes[i]);
            }
            assert(!contributes(nodes[nodes.len() - 1]));
        }
        if exists|i: int| 0 <= i < nodes.len() && contributes(#[trigger] nodes[i]) {
            let k = choose|i: int| 0 <= i < nodes.len() && contributes(#[trigger] nodes[i]);
            if k < rest.len() {
                assert(contributes(rest[k]));
            } else {
                assert(contributes(nodes.last()));
            }
        }
    }
}

/// An element contributes nothing exactly when it has no attribute, no
/// child that contributes, and no text of its own to give: because a child
/// is an element, or because the text is blank.
pub proof fn lemma_gives_nothing_iff(element: ElementView)
    ensures
        element_value(element) is None <==> {
            &&& element.attrs.len() == 0
            &&& forall|i: int|
                0 <= i < element.children.len() ==> !contributes(#[trigger] element.children[i])
            &&& (has_child_element(element.children) || is_blank(text_of(element.children)))
        },
{
    let attrs = attrs_table(element.attrs);
    let table = with_nodes(attrs, element.children);
    let text = TomlView::String(trimmed(text_of(element.children)));
    lemma_attrs_table_sound(element.attrs);
    lemma_with_nodes_len(attrs, element.children);
    lemma_trimmed_empty_iff_blank(text_of(element.children));
    lemma_put_moves_no_key(table, text_key(), text);
    assert(!has_key(table, text_key()) ==> put(table, text_key(), text).len() > 0);
}

} // verus!
