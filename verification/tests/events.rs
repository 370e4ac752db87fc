use html2toml::dom::{Element, Node};
use html2toml::events::{build_forest, Event};

fn open(name: &str, attrs: &[(&str, &str)]) -> Event {
    Event::Open {
        name: name.to_string(),
        attrs: attrs.iter().map(|(k, v)| (k.to_string(), v.to_string())).collect(),
    }
}

fn text(s: &str) -> Event {
    Event::Text(s.to_string())
}

fn element(name: &str, attrs: &[(&str, &str)], children: Vec<Node>) -> Node {
    Node::Element(Element {
        name: name.to_string(),
        attrs: attrs.iter().map(|(k, v)| (k.to_string(), v.to_string())).collect(),
        children,
    })
}

#[test]
fn no_events_no_nodes() {
    assert_eq!(build_forest(&vec![]), vec![]);
}

#[test]
fn leaf_nodes() {
    let events = vec![text("a"), Event::Close, Event::Other, Event::Close, open("br", &[]), Event::Close];
    assert_eq!(
        build_forest(&events),
        vec![Node::Text("a".to_string()), Node::Other, element("br", &[], vec![])]
    );
}

#[test]
fn nested_elements() {
    let events = vec![
        open("p", &[("id", "x"), ("class", "c")]),
        text("hello"),
        Event::Close,
        open("b", &[]),
        text("world"),
        Event::Close,
        Event::Close,
        Event::Other,
        Event::Close,
        Event::Close,
        open("q", &[]),
        Event::Close,
    ];
    assert_eq!(
        build_forest(&events),
        vec![
            element(
                "p",
                &[("id", "x"), ("class", "c")],
                vec![
                    Node::Text("hello".to_string()),
                    element("b", &[], vec![Node::Text("world".to_string())]),
                    Node::Other,
                ]
            ),
            element("q", &[], vec![]),
        ]
    );
}

#[test]
fn what_lies_below_text_or_other_is_dropped() {
    let events = vec![
        Event::Other,
        open("a", &[]),
        Event::Close,
        Event::Close,
        text("t"),
        text("inner"),
        Event::Close,
        Event::Close,
    ];
    assert_eq!(build_forest(&events), vec![Node::Other, Node::Text("t".to_string())]);
}

#[test]
fn unclosed_nodes_end_with_the_events() {
    let events = vec![open("a", &[]), open("b", &[]), text("t")];
    assert_eq!(
        build_forest(&events),
        vec![element(
            "a",
            &[],
            vec![element("b", &[], vec![Node::Text("t".to_string())])]
        )]
    );
}

#[test]
fn a_close_without_a_node_ends_the_forest() {
    let events = vec![text("a"), Event::Close, Event::Close, text("b"), Event::Close];
    assert_eq!(build_forest(&events), vec![Node::Text("a".to_string())]);
    assert_eq!(build_forest(&vec![Event::Close, open("a", &[])]), vec![]);
}

fn walk(nodes: &[Node], events: &mut Vec<Event>) {
    for node in nodes {
        match node {
            Node::Element(e) => {
                events.push(Event::Open {
                    name: e.name.clone(),
                    attrs: e.attrs.clone(),
                });
                walk(&e.children, events);
            }
            Node::Text(t) => events.push(Event::Text(t.clone())),
            Node::Other => events.push(Event::Other),
        }
        events.push(Event::Close);
    }
}

#[test]
fn the_walk_through_a_forest_builds_it_back() {
    let forest = vec![
        Node::Other,
        element(
            "html",
            &[("lang", "en")],
            vec![
                element("head", &[], vec![element("title", &[], vec![Node::Text("T".to_string())])]),
                Node::Text("\n".to_string()),
                element(
                    "body",
                    &[("class", "a b"), ("id", "")],
                    vec![
                        Node::Other,
                        element("p", &[], vec![]),
                        element(
                            "p",
                            &[],
                            vec![Node::Text("x".to_string()), element("br", &[], vec![])],
                        ),
                    ],
                ),
            ],
        ),
        Node::Text("tail".to_string()),
    ];
    let mut events = Vec::new();
    walk(&forest, &mut events);
    assert_eq!(events.len(), 26);
    assert_eq!(build_forest(&events), forest);
}
