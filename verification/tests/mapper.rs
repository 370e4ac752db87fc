use html2toml::dom::{Element, Node};
use html2toml::mapper::{document_to_toml, element_to_toml, merge_element};
use html2toml::value::{Table, Toml};

fn element(name: &str, attrs: &[(&str, &str)], children: Vec<Node>) -> Element {
    Element {
        name: name.to_string(),
        attrs: attrs.iter().map(|(k, v)| (k.to_string(), v.to_string())).collect(),
        children,
    }
}

fn text(s: &str) -> Node {
    Node::Text(s.to_string())
}

fn string(s: &str) -> Toml {
    Toml::String(s.to_string())
}

fn table(entries: Vec<(&str, Toml)>) -> Table {
    let mut t = Table::new();
    for (k, v) in entries {
        t.insert(k.to_string(), v);
    }
    t
}

fn text_table(s: &str) -> Toml {
    Toml::Table(table(vec![("text", string(s))]))
}

#[test]
fn bare_element_maps_to_none() {
    assert_eq!(element_to_toml(&element("div", &[], vec![])), None);
}

#[test]
fn whitespace_only_text_maps_to_none() {
    let e = element("p", &[], vec![text("  \n\t ")]);
    assert_eq!(element_to_toml(&e), None);
    let e = element("p", &[], vec![text(" "), text("\u{a0}\u{3000}"), text("")]);
    assert_eq!(element_to_toml(&e), None);
}

#[test]
fn single_child_stays_bare() {
    let parent = element("div", &[], vec![Node::Element(element("a", &[], vec![text("1")]))]);
    let mapped = element_to_toml(&parent).unwrap();
    assert_eq!(mapped, Toml::Table(table(vec![("a", text_table("1"))])));
    match mapped {
        Toml::Table(t) => {
            assert_eq!(t.get("a"), Some(&text_table("1")));
            assert!(!matches!(t.get("a"), Some(Toml::Array(_))));
        }
        other => panic!("not a table: {:?}", other),
    }
}

#[test]
fn repeated_children_become_a_sequence() {
    let parent = element(
        "div",
        &[],
        vec![
            Node::Element(element("a", &[], vec![text("1")])),
            Node::Element(element("a", &[], vec![text("2")])),
        ],
    );
    assert_eq!(
        element_to_toml(&parent),
        Some(Toml::Table(table(vec![(
            "a",
            Toml::Array(vec![text_table("1"), text_table("2")])
        )])))
    );
}

#[test]
fn third_repetition_extends_the_sequence() {
    let parent = element(
        "ul",
        &[],
        vec![
            Node::Element(element("li", &[], vec![text("1")])),
            Node::Element(element("b", &[], vec![text("x")])),
            Node::Element(element("li", &[], vec![text("2")])),
            Node::Element(element("li", &[], vec![text("3")])),
        ],
    );
    assert_eq!(
        element_to_toml(&parent),
        Some(Toml::Table(table(vec![
            (
                "li",
                Toml::Array(vec![text_table("1"), text_table("2"), text_table("3")])
            ),
            ("b", text_table("x")),
        ])))
    );
}

#[test]
fn text_beside_child_element_is_dropped() {
    let p = element(
        "p",
        &[],
        vec![text("hello"), Node::Element(element("b", &[], vec![text("world")]))],
    );
    let mapped = element_to_toml(&p).unwrap();
    assert_eq!(mapped, Toml::Table(table(vec![("b", text_table("world"))])));
    match mapped {
        Toml::Table(t) => {
            assert_eq!(t.get("text"), None);
            assert!(!t.contains_key("text"));
            assert_eq!(t.get("b"), Some(&text_table("world")));
        }
        other => panic!("not a table: {:?}", other),
    }
}

#[test]
fn text_is_dropped_even_beside_an_empty_child() {
    let p = element("p", &[], vec![text("hello"), Node::Element(element("br", &[], vec![]))]);
    assert_eq!(element_to_toml(&p), None);
}

#[test]
fn text_only_element_keeps_trimmed_text() {
    let p = element("p", &[], vec![text("  hello  world  ")]);
    assert_eq!(element_to_toml(&p), Some(text_table("hello  world")));
}

#[test]
fn text_fragments_are_joined_by_one_space() {
    let p = element("p", &[], vec![text("hello"), Node::Other, text("world")]);
    assert_eq!(element_to_toml(&p), Some(text_table("hello world")));
    let p = element("p", &[], vec![text("a "), text(" b"), text("")]);
    assert_eq!(element_to_toml(&p), Some(text_table("a   b")));
}

#[test]
fn attributes_come_before_text() {
    let a = element("a", &[("id", "x")], vec![text("text")]);
    let mapped = element_to_toml(&a).unwrap();
    assert_eq!(
        mapped,
        Toml::Table(table(vec![("id", string("x")), ("text", string("text"))]))
    );
    match mapped {
        Toml::Table(t) => {
            assert_eq!(t.len(), 2);
            assert_eq!(t.key_at(0), "id");
            assert_eq!(t.value_at(0), &string("x"));
            assert_eq!(t.key_at(1), "text");
            assert_eq!(t.value_at(1), &string("text"));
        }
        other => panic!("not a table: {:?}", other),
    }
}

#[test]
fn attributes_alone_make_a_table() {
    let e = element("img", &[("src", "a.png"), ("alt", "")], vec![]);
    assert_eq!(
        element_to_toml(&e),
        Some(Toml::Table(table(vec![("src", string("a.png")), ("alt", string(""))])))
    );
}

#[test]
fn repeated_attribute_keeps_the_last_value_in_the_first_place() {
    let e = element("a", &[("k", "1"), ("z", "2"), ("k", "3")], vec![]);
    let mapped = element_to_toml(&e).unwrap();
    match mapped {
        Toml::Table(t) => {
            assert_eq!(t.len(), 2);
            assert_eq!(t.key_at(0), "k");
            assert_eq!(t.value_at(0), &string("3"));
            assert_eq!(t.key_at(1), "z");
        }
        other => panic!("not a table: {:?}", other),
    }
}

#[test]
fn text_replaces_an_attribute_named_text() {
    let e = element("a", &[("text", "old"), ("id", "x")], vec![text(" new ")]);
    assert_eq!(
        element_to_toml(&e),
        Some(Toml::Table(table(vec![("text", string("new")), ("id", string("x"))])))
    );
}

#[test]
fn child_named_like_an_attribute_is_grouped_with_it() {
    let e = element(
        "p",
        &[("a", "1")],
        vec![Node::Element(element("a", &[], vec![text("x")]))],
    );
    assert_eq!(
        element_to_toml(&e),
        Some(Toml::Table(table(vec![(
            "a",
            Toml::Array(vec![string("1"), text_table("x")])
        )])))
    );
}

#[test]
fn children_that_contribute_nothing_leave_no_key() {
    let e = element(
        "div",
        &[],
        vec![
            Node::Element(element("span", &[], vec![])),
            Node::Element(element("p", &[], vec![text("  ")])),
            Node::Other,
        ],
    );
    assert_eq!(element_to_toml(&e), None);
}

#[test]
fn nesting_is_kept() {
    let e = element(
        "html",
        &[("lang", "en")],
        vec![
            Node::Element(element("head", &[], vec![])),
            text("\n"),
            Node::Element(element(
                "body",
                &[],
                vec![Node::Element(element("p", &[("id", "x")], vec![text("hi")]))],
            )),
        ],
    );
    let p = Toml::Table(table(vec![("id", string("x")), ("text", string("hi"))]));
    let body = Toml::Table(table(vec![("p", p)]));
    assert_eq!(
        element_to_toml(&e),
        Some(Toml::Table(table(vec![("lang", string("en")), ("body", body)])))
    );
}

#[test]
fn merge_element_adds_under_the_tag_name() {
    let mut t = Table::new();
    merge_element(&mut t, &element("a", &[], vec![]));
    assert!(t.is_empty());
    merge_element(&mut t, &element("a", &[], vec![text("1")]));
    assert_eq!(t, table(vec![("a", text_table("1"))]));
    merge_element(&mut t, &element("a", &[], vec![text("2")]));
    assert_eq!(
        t,
        table(vec![("a", Toml::Array(vec![text_table("1"), text_table("2")]))])
    );
}

#[test]
fn document_groups_top_level_elements() {
    let nodes = vec![
        Node::Other,
        Node::Element(element("section", &[], vec![text("one")])),
        text("stray"),
        Node::Element(element("empty", &[], vec![])),
        Node::Element(element("section", &[], vec![text("two")])),
        Node::Element(element("footer", &[("id", "f")], vec![])),
    ];
    assert_eq!(
        document_to_toml(&nodes),
        table(vec![
            (
                "section",
                Toml::Array(vec![text_table("one"), text_table("two")])
            ),
            ("footer", Toml::Table(table(vec![("id", string("f"))]))),
        ])
    );
}

#[test]
fn empty_document_gives_empty_table() {
    assert_eq!(document_to_toml(&vec![]), Table::new());
    assert!(document_to_toml(&vec![Node::Other, text("x")]).is_empty());
}

#[test]
fn deep_nesting_is_mapped() {
    let depth = 200;
    let mut node = element("leaf", &[("k", "v")], vec![]);
    let mut expected = Toml::Table(table(vec![("k", string("v"))]));
    let mut name = "leaf".to_string();
    for level in 0..depth {
        let parent = format!("n{}", level);
        node = element(&parent, &[], vec![Node::Element(node)]);
        expected = Toml::Table(table(vec![(name.as_str(), expected)]));
        name = parent;
    }
    assert_eq!(element_to_toml(&node), Some(expected));
}
