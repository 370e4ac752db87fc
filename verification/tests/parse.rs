use html2toml::dom::{Element, Node};
use html2toml::parse::parse_document;

fn element(name: &str, attrs: &[(&str, &str)], children: Vec<Node>) -> Node {
    Node::Element(Element {
        name: name.to_string(),
        attrs: attrs.iter().map(|(k, v)| (k.to_string(), v.to_string())).collect(),
        children,
    })
}

fn text(s: &str) -> Node {
    Node::Text(s.to_string())
}

#[test]
fn empty_text_parses_to_an_empty_page() {
    assert_eq!(
        parse_document(""),
        vec![element(
            "html",
            &[],
            vec![element("head", &[], vec![]), element("body", &[], vec![])]
        )]
    );
}

#[test]
fn doctype_and_comment_are_other_nodes() {
    let nodes = parse_document("<!DOCTYPE html><!-- c --><p id=x>hi<br>there</p>tail");
    assert_eq!(
        nodes,
        vec![
            Node::Other,
            Node::Other,
            element(
                "html",
                &[],
                vec![
                    element("head", &[], vec![]),
                    element(
                        "body",
                        &[],
                        vec![
                            element(
                                "p",
                                &[("id", "x")],
                                vec![text("hi"), element("br", &[], vec![]), text("there")]
                            ),
                            text("tail"),
                        ]
                    ),
                ]
            ),
        ]
    );
}

#[test]
fn attributes_keep_source_order() {
    let nodes = parse_document("<html><body><a zeta=\"1\" alpha=\"2\" mid=\"3\">x</a></body></html>");
    let expected = element(
        "html",
        &[],
        vec![
            element("head", &[], vec![]),
            element(
                "body",
                &[],
                vec![element(
                    "a",
                    &[("zeta", "1"), ("alpha", "2"), ("mid", "3")],
                    vec![text("x")]
                )],
            ),
        ],
    );
    assert_eq!(nodes, vec![expected]);
}

#[test]
fn comment_inside_an_element_is_an_other_node() {
    let nodes = parse_document("<html><head></head><body><p>a<!-- c -->b</p></body></html>");
    let expected = element(
        "html",
        &[],
        vec![
            element("head", &[], vec![]),
            element(
                "body",
                &[],
                vec![element("p", &[], vec![text("a"), Node::Other, text("b")])],
            ),
        ],
    );
    assert_eq!(nodes, vec![expected]);
}

#[test]
fn whitespace_in_text_is_kept() {
    let nodes = parse_document("<html><head></head><body><p>  hello  world  </p></body></html>");
    let expected = element(
        "html",
        &[],
        vec![
            element("head", &[], vec![]),
            element("body", &[], vec![element("p", &[], vec![text("  hello  world  ")])]),
        ],
    );
    assert_eq!(nodes, vec![expected]);
}

#[test]
fn malformed_markup_is_repaired() {
    let nodes = parse_document("<ul><li>one<li>two</ul>");
    let expected = element(
        "html",
        &[],
        vec![
            element("head", &[], vec![]),
            element(
                "body",
                &[],
                vec![element(
                    "ul",
                    &[],
                    vec![
                        element("li", &[], vec![text("one")]),
                        element("li", &[], vec![text("two")]),
                    ],
                )],
            ),
        ],
    );
    assert_eq!(nodes, vec![expected]);
}
