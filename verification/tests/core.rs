//! Tests of the library against concrete documents, including ones parsed
//! by the real HTML parser.

use htmlfilter::base::{detect_base, resolve_base, BaseUrl};
use htmlfilter::dom::{detach_child, Attr, Node};
use htmlfilter::extract::{select_attributes, serialize_text};
use htmlfilter::pipeline::{node_output, output_mode, OutputMode};
use htmlfilter::pretty::pretty_print;
use htmlfilter::rewrite::rewrite_relative_url;
use kuchiki::traits::TendrilSink;

fn elem(tag: &str, attrs: Vec<(&str, &str)>, children: Vec<Node>) -> Node {
    let mut attributes = Vec::new();
    for (n, v) in attrs {
        attributes.push(Attr { name: n.to_string(), value: v.to_string() });
    }
    Node::Element { tag: tag.to_string(), attributes, children }
}

fn text(s: &str) -> Node {
    Node::Text { content: s.to_string() }
}

fn attr_of(n: &Node, name: &str) -> Option<String> {
    match n {
        Node::Element { attributes, .. } => attributes
            .iter()
            .find(|a| a.name == name)
            .map(|a| a.value.clone()),
        Node::Text { .. } => None,
    }
}

fn child(n: &Node, i: usize) -> &Node {
    match n {
        Node::Element { children, .. } => &children[i],
        Node::Text { .. } => panic!("not an element"),
    }
}

fn convert(nr: &kuchiki::NodeRef) -> Option<Node> {
    if let Some(el) = nr.as_element() {
        let mut attributes = Vec::new();
        for (name, attr) in &el.attributes.borrow().map {
            attributes.push(Attr { name: name.local.to_string(), value: attr.value.clone() });
        }
        let mut children = Vec::new();
        for c in nr.children() {
            if let Some(converted) = convert(&c) {
                children.push(converted);
            }
        }
        Some(Node::Element { tag: el.name.local.to_string(), attributes, children })
    } else if let Some(t) = nr.as_text() {
        Some(Node::Text { content: t.borrow().clone() })
    } else {
        None
    }
}

fn parse_to_element(src: &str, selector: &str) -> Node {
    let doc = kuchiki::parse_html().one(src);
    let matched = doc.select_first(selector).unwrap();
    convert(matched.as_node()).unwrap()
}

#[test]
fn whitespace_ignored_extraction() {
    let n = elem("div", vec![], vec![text("  \n"), text("Hello"), text("   ")]);
    assert_eq!(serialize_text(&n, true), "Hello\n");
}

#[test]
fn raw_text_concatenation_keeps_whitespace() {
    let n = elem("div", vec![], vec![text("  \n"), text("Hello"), text("   ")]);
    assert_eq!(serialize_text(&n, false), "  \nHello   ");
}

#[test]
fn text_extraction_descends_in_document_order() {
    let n = elem(
        "div",
        vec![],
        vec![
            elem("p", vec![], vec![text("one")]),
            text(" two "),
            elem("span", vec![], vec![elem("b", vec![], vec![text("three")])]),
        ],
    );
    assert_eq!(serialize_text(&n, false), "one two three");
    assert_eq!(serialize_text(&n, true), "one\n two \nthree\n");
}

#[test]
fn attribute_extraction_in_request_order() {
    let n = elem("a", vec![("href", "x"), ("title", "y")], vec![]);
    let names = vec!["href".to_string(), "class".to_string()];
    assert_eq!(select_attributes(&n, &names), "x\n");
}

#[test]
fn attribute_extraction_follows_requested_not_stored_order() {
    let n = elem("a", vec![("href", "x"), ("title", "y")], vec![]);
    let names = vec!["title".to_string(), "href".to_string()];
    assert_eq!(select_attributes(&n, &names), "y\nx\n");
}

#[test]
fn attribute_extraction_of_text_is_empty() {
    let names = vec!["href".to_string()];
    assert_eq!(select_attributes(&text("hi"), &names), "");
}

#[test]
fn rewrite_classification() {
    let doc = elem("html", vec![], vec![]);
    let base = resolve_base(&Some("https://example.com/p".to_string()), false, &doc).unwrap();
    let mut n = elem(
        "div",
        vec![],
        vec![
            elem("a", vec![("href", "/a/b?x=1")], vec![]),
            elem("a", vec![("href", "http://other.com/x")], vec![]),
            elem("img", vec![("src", "images/pic.png")], vec![]),
            elem("script", vec![("src", "//cdn.example.com/x")], vec![]),
        ],
    );
    rewrite_relative_url(&mut n, &base);
    assert_eq!(attr_of(child(&n, 0), "href").unwrap(), "https://example.com/a/b?x=1");
    assert_eq!(attr_of(child(&n, 1), "href").unwrap(), "http://other.com/x");
    assert_eq!(attr_of(child(&n, 2), "src").unwrap(), "images/pic.png");
    assert_eq!(attr_of(child(&n, 3), "src").unwrap(), "//cdn.example.com/x");
}

#[test]
fn rewrite_touches_only_link_attributes() {
    let base = BaseUrl { scheme: "https".to_string(), authority: "example.com".to_string() };
    let mut n = elem("a", vec![("title", "/not-a-link"), ("href", "/yes")], vec![]);
    rewrite_relative_url(&mut n, &base);
    assert_eq!(attr_of(&n, "title").unwrap(), "/not-a-link");
    assert_eq!(attr_of(&n, "href").unwrap(), "https://example.com/yes");
}

#[test]
fn rewrite_is_idempotent_on_a_tree() {
    let base = BaseUrl { scheme: "https".to_string(), authority: "example.com".to_string() };
    let mut n = elem("a", vec![("href", "/a")], vec![]);
    rewrite_relative_url(&mut n, &base);
    let once = attr_of(&n, "href").unwrap();
    rewrite_relative_url(&mut n, &base);
    assert_eq!(attr_of(&n, "href").unwrap(), once);
}

#[test]
fn parsed_base_is_split_into_parts() {
    let doc = elem("html", vec![], vec![]);
    let base = resolve_base(&Some("https://host.example:8080/deep/path?q=1".to_string()), false, &doc)
        .unwrap();
    assert_eq!(base.scheme, "https");
    assert_eq!(base.authority, "host.example:8080");
}

#[test]
fn detected_base_wins_over_explicit() {
    let doc = elem(
        "html",
        vec![],
        vec![
            elem(
                "head",
                vec![],
                vec![elem("base", vec![("href", "https://detected.example/sub/")], vec![])],
            ),
            elem("body", vec![], vec![]),
        ],
    );
    let base = resolve_base(&Some("https://explicit.example/".to_string()), true, &doc).unwrap();
    assert_eq!(base.authority, "detected.example");
}

#[test]
fn explicit_used_when_detection_finds_nothing() {
    let doc = elem("html", vec![], vec![elem("body", vec![], vec![])]);
    let base = resolve_base(&Some("https://explicit.example/".to_string()), true, &doc).unwrap();
    assert_eq!(base.authority, "explicit.example");
}

#[test]
fn base_element_ignored_when_detection_is_off() {
    let doc = elem(
        "html",
        vec![],
        vec![elem("base", vec![("href", "https://detected.example/")], vec![])],
    );
    let base = resolve_base(&Some("https://explicit.example/".to_string()), false, &doc).unwrap();
    assert_eq!(base.authority, "explicit.example");
    assert!(resolve_base(&None, false, &doc).is_none());
}

#[test]
fn unparseable_explicit_yields_no_base() {
    let doc = elem("html", vec![], vec![]);
    assert!(resolve_base(&Some("not a url".to_string()), false, &doc).is_none());
    assert!(resolve_base(&Some("/relative/only".to_string()), true, &doc).is_none());
}

#[test]
fn first_parseable_base_wins() {
    let doc = elem(
        "html",
        vec![],
        vec![
            elem("base", vec![("href", "https://first.example/")], vec![]),
            elem("base", vec![("href", "https://second.example/")], vec![]),
        ],
    );
    let base = detect_base(&doc).unwrap();
    assert_eq!(base.authority, "first.example");
}

#[test]
fn unparseable_first_base_is_skipped() {
    let doc = elem(
        "html",
        vec![],
        vec![
            elem("base", vec![("href", "/relative")], vec![]),
            elem("base", vec![], vec![]),
            elem("base", vec![("href", "https://second.example/")], vec![]),
        ],
    );
    let base = detect_base(&doc).unwrap();
    assert_eq!(base.authority, "second.example");
}

#[test]
fn pretty_print_indents_and_trims() {
    let n = elem(
        "body",
        vec![],
        vec![
            text("  \n"),
            elem("p", vec![("class", "x")], vec![text("  Hi  ")]),
            elem("br", vec![], vec![]),
        ],
    );
    assert_eq!(
        pretty_print(&n),
        "<body>\n  <p class=\"x\">\n    Hi\n  </p>\n  <br>\n</body>\n"
    );
}

#[test]
fn void_elements_have_no_closing_tag() {
    let n = elem("img", vec![("src", "a.png")], vec![text("ignored")]);
    assert_eq!(pretty_print(&n), "<img src=\"a.png\">\n");
}

#[test]
fn detached_subtree_absent_from_outputs() {
    let mut n = elem(
        "body",
        vec![],
        vec![
            elem("p", vec![], vec![text("Hi")]),
            elem("script", vec![("src", "/a.js")], vec![text("evil()")]),
        ],
    );
    detach_child(&mut n, 1);
    let pretty = pretty_print(&n);
    assert!(!pretty.contains("script"));
    assert!(pretty.contains("Hi"));
    let txt = serialize_text(&n, true);
    assert_eq!(txt, "Hi\n");
    let names = vec!["src".to_string()];
    assert_eq!(select_attributes(child(&n, 0), &names), "");
}

#[test]
fn output_mode_precedence() {
    assert_eq!(output_mode(true, true, true), OutputMode::Attributes);
    assert_eq!(output_mode(false, true, true), OutputMode::TextOnly);
    assert_eq!(output_mode(false, false, true), OutputMode::Pretty);
    assert_eq!(output_mode(false, false, false), OutputMode::Raw);
}

#[test]
fn node_output_is_raw_exactly_when_raw() {
    let n = elem("p", vec![], vec![text("Hi")]);
    let names: Vec<String> = vec![];
    assert!(node_output(&n, OutputMode::Raw, &names, false).is_none());
    assert_eq!(node_output(&n, OutputMode::TextOnly, &names, false).unwrap(), "Hi");
    assert_eq!(node_output(&n, OutputMode::Pretty, &names, false).unwrap(), "<p>\n  Hi\n</p>\n");
}

#[test]
fn end_to_end_pretty_with_rewrite() {
    let src = "<html><body><p>Hi</p><script src=\"/a.js\"></script></body></html>";
    let mut body = parse_to_element(src, "body");
    let doc = parse_to_element(src, "html");
    let base = resolve_base(&Some("https://ex.com".to_string()), false, &doc).unwrap();
    rewrite_relative_url(&mut body, &base);
    assert_eq!(
        pretty_print(&body),
        "<body>\n  <p>\n    Hi\n  </p>\n  <script src=\"https://ex.com/a.js\">\n  </script>\n</body>\n"
    );
}

#[test]
fn detect_base_from_parsed_document() {
    let src = "<html><head><base href=\"https://parsed.example/x\"></head><body></body></html>";
    let doc = parse_to_element(src, "html");
    let base = detect_base(&doc).unwrap();
    assert_eq!(base.scheme, "https");
    assert_eq!(base.authority, "parsed.example");
}

#[test]
fn pretty_roundtrip_is_stable() {
    let src = "<html><head><title>T</title></head><body><p> Hi <b>there</b></p><br>\
               <div>  <span>x</span>  </div></body></html>";
    let first = parse_to_element(src, "html");
    let rendered = pretty_print(&first);
    let second = parse_to_element(&rendered, "html");
    let rerendered = pretty_print(&second);
    assert_eq!(rerendered, rendered);
}
