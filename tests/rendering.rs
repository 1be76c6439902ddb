use poochina_browser::dom::{create_element_node, create_text_node};
use poochina_browser::parser::HtmlParser;
use poochina_browser::render::render_dom;

#[test]
fn renders_element_tree_with_indentation() {
    let doc = HtmlParser::new(r#"<div id="main" class="c"><h1>T</h1><input disabled/></div>"#).parse();
    assert_eq!(
        render_dom(&doc.children[0], 0),
        "<div id=\"main\" class=\"c\">\n  <h1>\n    Text: 'T'\n  </h1>\n  <input disabled />\n</div>\n"
    );
}

#[test]
fn renders_document_as_one_line() {
    let doc = HtmlParser::new("<p>x</p>").parse();
    assert_eq!(render_dom(&doc, 1), "  Document\n");
}

#[test]
fn whitespace_only_text_is_not_rendered() {
    let doc = HtmlParser::new("<p>   </p>").parse();
    assert_eq!(render_dom(&doc.children[0], 0), "<p>\n</p>\n");
    assert_eq!(render_dom(&create_text_node("\u{a0}\t"), 2), "");
    assert_eq!(render_dom(&create_text_node(" a "), 2), "    Text: ' a '\n");
}

#[test]
fn renders_empty_attribute_value_as_bare_name() {
    let node = create_element_node(
        "x-y",
        vec![("a".to_string(), String::new()), ("b".to_string(), "1".to_string())],
        vec![],
    );
    assert_eq!(render_dom(&node, 1), "  <x-y a b=\"1\" />\n");
}
