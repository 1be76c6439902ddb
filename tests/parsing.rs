use poochina_browser::dom::{create_element_node, create_text_node, ElementData, Node, NodeType};
use poochina_browser::parser::HtmlParser;

fn parse(input: &str) -> Node {
    HtmlParser::new(input).parse()
}

fn element(node: &Node) -> &ElementData {
    match &node.node_type {
        NodeType::Element(e) => e,
        other => panic!("expected an element, got {:?}", other),
    }
}

fn text(node: &Node) -> &str {
    match &node.node_type {
        NodeType::Text(t) => t.as_str(),
        other => panic!("expected text, got {:?}", other),
    }
}

fn attr<'a>(node: &'a Node, name: &str) -> Option<&'a str> {
    element(node).get_attribute(name).map(|v| v.as_str())
}

#[test]
fn reparse_after_exhaustion_is_empty() {
    let mut parser = HtmlParser::new("<div><p>x</p></div> tail");
    let first = parser.parse();
    assert_eq!(first.children.len(), 2);
    let second = parser.parse();
    assert_eq!(second.node_type, NodeType::Document);
    assert!(second.children.is_empty());
    let third = parser.parse();
    assert!(third.children.is_empty());
}

#[test]
fn empty_input_gives_empty_document() {
    let doc = parse("");
    assert_eq!(doc.node_type, NodeType::Document);
    assert!(doc.children.is_empty());
    assert!(parse(" \n\t ").children.is_empty());
}

#[test]
fn self_closing_equals_explicitly_closed() {
    let a = parse(r#"<input type="text" disabled/>"#);
    let b = parse(r#"<input type="text" disabled></input>"#);
    for doc in [&a, &b] {
        assert_eq!(doc.children.len(), 1);
        let input = &doc.children[0];
        assert_eq!(element(input).tag_name, "input");
        assert_eq!(attr(input, "type"), Some("text"));
        assert_eq!(attr(input, "disabled"), Some(""));
        assert_eq!(element(input).attributes.len(), 2);
        assert!(input.children.is_empty());
    }
    assert_eq!(a, b);
}

#[test]
fn boolean_attribute_has_empty_value() {
    let doc = parse("<input disabled>");
    assert_eq!(doc.children.len(), 1);
    let input = &doc.children[0];
    assert_eq!(element(input).tag_name, "input");
    assert_eq!(attr(input, "disabled"), Some(""));
    assert_eq!(element(input).attributes, vec![("disabled".to_string(), String::new())]);
}

#[test]
fn nested_find_by_id() {
    let doc = parse(r#"<div id="main"><h1>Title</h1></div>"#);
    let found = doc.find_by_id("main").expect("main is there");
    assert_eq!(element(found).tag_name, "div");
    assert_eq!(found.children.len(), 1);
    assert_eq!(element(&found.children[0]).tag_name, "h1");
    assert!(doc.find_by_id("missing").is_none());
}

#[test]
fn find_by_id_returns_first_in_document_order() {
    let doc = parse(r#"<div id="x"><p id="x">a</p></div><span id="y"><b id="z"></b></span>"#);
    assert_eq!(element(doc.find_by_id("x").unwrap()).tag_name, "div");
    assert_eq!(element(doc.find_by_id("z").unwrap()).tag_name, "b");
    assert!(doc.find_by_id("X").is_none());
}

#[test]
fn tag_collection_in_document_order() {
    let doc = parse("<ul><li>A</li><li>B</li></ul>");
    let items = doc.get_elements_by_tag_name("li");
    assert_eq!(items.len(), 2);
    assert_eq!(items[0].children.len(), 1);
    assert_eq!(text(&items[0].children[0]), "A");
    assert_eq!(items[1].children.len(), 1);
    assert_eq!(text(&items[1].children[0]), "B");
    assert!(doc.get_elements_by_tag_name("LI").is_empty());
}

#[test]
fn tag_collection_is_preorder() {
    let doc = parse("<a><a>1</a><b><a>2</a></b></a><a>3</a>");
    let all = doc.get_elements_by_tag_name("a");
    assert_eq!(all.len(), 4);
    assert_eq!(all[0].children.len(), 2);
    assert_eq!(text(&all[1].children[0]), "1");
    assert_eq!(text(&all[2].children[0]), "2");
    assert_eq!(text(&all[3].children[0]), "3");
}

#[test]
fn text_is_trimmed() {
    let doc = parse("<p> hello world </p>");
    let p = &doc.children[0];
    assert_eq!(p.children.len(), 1);
    assert_eq!(text(&p.children[0]), "hello world");
}

#[test]
fn unicode_whitespace_is_trimmed() {
    let doc = parse("<p>\u{a0}caf\u{e9}\u{2003}</p>");
    assert_eq!(text(&doc.children[0].children[0]), "caf\u{e9}");
}

#[test]
fn whitespace_only_run_is_an_empty_text_node() {
    let doc = parse("<p>   </p>");
    assert_eq!(doc.children.len(), 1);
    let p = &doc.children[0];
    assert_eq!(element(p).tag_name, "p");
    assert_eq!(p.children, vec![create_text_node("")]);
}

#[test]
fn whitespace_between_elements_is_kept_as_empty_text() {
    let doc = parse("<ul>\n  <li>A</li>\n</ul>  ");
    assert_eq!(doc.children.len(), 1);
    let ul = &doc.children[0];
    assert_eq!(ul.children.len(), 3);
    assert_eq!(ul.children[0], create_text_node(""));
    assert_eq!(element(&ul.children[1]).tag_name, "li");
    assert_eq!(ul.children[2], create_text_node(""));
    let lead = parse("  <b></b>");
    assert_eq!(lead.children.len(), 2);
    assert_eq!(lead.children[0], create_text_node(""));
}

#[test]
fn quote_style_does_not_matter() {
    let single = parse("<a href='x'>");
    let double = parse(r#"<a href="x">"#);
    assert_eq!(attr(&single.children[0], "href"), Some("x"));
    assert_eq!(attr(&double.children[0], "href"), Some("x"));
    let mixed = parse(r#"<a title='say "hi"'>"#);
    assert_eq!(attr(&mixed.children[0], "title"), Some("say \"hi\""));
}

#[test]
fn repeated_attribute_keeps_first_place_and_last_value() {
    let doc = parse(r#"<a x="1" y="2" x="3">"#);
    assert_eq!(
        element(&doc.children[0]).attributes,
        vec![("x".to_string(), "3".to_string()), ("y".to_string(), "2".to_string())]
    );
}

#[test]
fn names_take_unicode_letters_digits_and_hyphens() {
    let doc = parse("<h1 data-caf\u{e9}2=\"v\">t</h1>");
    let h1 = &doc.children[0];
    assert_eq!(element(h1).tag_name, "h1");
    assert_eq!(attr(h1, "data-caf\u{e9}2"), Some("v"));
}

#[test]
fn mismatched_closing_tag_is_accepted() {
    let doc = parse("<b>bold</i>after");
    assert_eq!(doc.children.len(), 2);
    assert_eq!(element(&doc.children[0]).tag_name, "b");
    assert_eq!(text(&doc.children[0].children[0]), "bold");
    assert_eq!(text(&doc.children[1]), "after");
}

#[test]
fn stray_closing_tag_ends_top_level() {
    let mut parser = HtmlParser::new("x</y>z");
    let doc = parser.parse();
    assert_eq!(doc.children.len(), 1);
    assert_eq!(text(&doc.children[0]), "x");
    let rest = parser.parse();
    assert_eq!(rest.children.len(), 1);
    assert_eq!(text(&rest.children[0]), "z");
}

#[test]
fn stray_closing_tag_inside_element_is_skipped_as_its_end() {
    let doc = parse("<div>a<p>b</p>c</div>");
    let div = &doc.children[0];
    assert_eq!(div.children.len(), 3);
    assert_eq!(text(&div.children[0]), "a");
    assert_eq!(element(&div.children[1]).tag_name, "p");
    assert_eq!(text(&div.children[2]), "c");
}

#[test]
fn unterminated_tag_head_gives_no_element() {
    assert!(parse("<a").children.is_empty());
    assert!(parse("<a href=").children.is_empty());
    assert!(parse(r#"<a href="x"#).children.is_empty());
}

#[test]
fn stray_character_in_tag_head_is_an_empty_named_attribute() {
    let doc = parse("<a \"x\">");
    assert_eq!(doc.children.len(), 1);
    let a = element(&doc.children[0]);
    assert_eq!(a.tag_name, "a");
    assert_eq!(
        a.attributes,
        vec![(String::new(), String::new()), ("x".to_string(), String::new())]
    );
    let b = parse("<b ? k='v'>t</b>");
    let b0 = &b.children[0];
    assert_eq!(attr(b0, ""), Some(""));
    assert_eq!(attr(b0, "k"), Some("v"));
    assert_eq!(text(&b0.children[0]), "t");
}

#[test]
fn unclosed_element_runs_to_end() {
    let doc = parse("<div><p>one");
    let div = &doc.children[0];
    assert_eq!(element(div).tag_name, "div");
    assert_eq!(text(&div.children[0].children[0]), "one");
}

#[test]
fn create_text_node_holds_data() {
    let node = create_text_node("hi there");
    assert_eq!(node.node_type, NodeType::Text("hi there".to_string()));
    assert!(node.children.is_empty());
}

#[test]
fn create_element_node_holds_parts() {
    let child = create_text_node("c");
    let node = create_element_node(
        "div",
        vec![("id".to_string(), "k".to_string())],
        vec![child],
    );
    assert_eq!(element(&node).tag_name, "div");
    assert_eq!(attr(&node, "id"), Some("k"));
    assert_eq!(node.children, vec![create_text_node("c")]);
    assert_eq!(node.find_by_id("k"), Some(&node));
}

#[test]
fn missing_attribute_is_none() {
    let doc = parse(r#"<img src="a.png">"#);
    let img = element(&doc.children[0]);
    assert_eq!(img.get_attribute("src").map(|v| v.as_str()), Some("a.png"));
    assert!(img.get_attribute("alt").is_none());
    assert!(img.get_attribute("SRC").is_none());
}

#[test]
fn text_nodes_are_never_found_or_collected() {
    let doc = parse("id main");
    assert!(doc.find_by_id("main").is_none());
    assert!(doc.get_elements_by_tag_name("id").is_empty());
    assert_eq!(text(&doc.children[0]), "id main");
}
