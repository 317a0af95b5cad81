use tinyrender::css::parser::parse as css_parse;
use tinyrender::css::{Selector, SimpleSelector, Value};
use tinyrender::dom::{elem, text, AttrMap, Node, NodeType};
use tinyrender::html::parse as html_parse;
use tinyrender::style::{matches_simple_selector, style_tree, Display, StyledNode};

fn div_with(attrs: &[(&str, &str)]) -> Node {
    let mut m = AttrMap::new();
    for (k, v) in attrs {
        m.insert(k.to_string(), v.to_string());
    }
    elem("div".to_string(), m, Vec::new())
}

fn elem_data(n: &Node) -> &tinyrender::dom::ElementData {
    match &n.node_type {
        NodeType::Element(e) => e,
        _ => panic!("expected an element"),
    }
}

#[test]
fn classes_split_on_whitespace() {
    let n = div_with(&[("class", "  a  b\tc ")]);
    let classes = elem_data(&n).classes();
    assert_eq!(classes.len(), 3);
    assert_eq!(classes[0].as_str(), "a");
    assert_eq!(classes[1].as_str(), "b");
    assert_eq!(classes[2].as_str(), "c");
}

#[test]
fn selector_matching_by_tag_id_class() {
    let n = div_with(&[("id", "main"), ("class", "x y")]);
    let e = elem_data(&n);
    let sel = SimpleSelector {
        tag_name: Some("div".to_string()),
        id: Some("main".to_string()),
        class: vec!["x".to_string(), "y".to_string()],
    };
    assert!(matches_simple_selector(e, &sel));
    let wrong_tag = SimpleSelector {
        tag_name: Some("p".to_string()),
        id: None,
        class: Vec::new(),
    };
    assert!(!matches_simple_selector(e, &wrong_tag));
    let missing_class = SimpleSelector {
        tag_name: None,
        id: None,
        class: vec!["z".to_string()],
    };
    assert!(!matches_simple_selector(e, &missing_class));
    let universal = Selector::Simple(SimpleSelector { tag_name: None, id: None, class: Vec::new() });
    assert!(tinyrender::style::matches(e, &universal));
}

fn color_of(styled: &StyledNode, name: &str) -> String {
    match styled.value(name) {
        Some(Value::Keyword(k)) => k,
        other => panic!("expected a keyword for {}, got {:?}", name, other),
    }
}

#[test]
fn id_beats_class_regardless_of_order() {
    let doc = html_parse("<div id=\"x\" class=\"y\"></div>".to_string()).expect("parse");
    let sheet1 = css_parse("#x {color: red;} .y {color: blue;}".to_string()).expect("parse");
    let sheet2 = css_parse(".y {color: blue;} #x {color: red;}".to_string()).expect("parse");
    let styled1 = style_tree(&doc, &sheet1);
    let styled2 = style_tree(&doc, &sheet2);
    assert_eq!(color_of(&styled1, "color"), "red");
    assert_eq!(color_of(&styled2, "color"), "red");
}

#[test]
fn later_rule_wins_at_equal_specificity() {
    let doc = html_parse("<div class=\"y\"></div>".to_string()).expect("parse");
    let sheet = css_parse(".y {color: blue;} .y {color: green;}".to_string()).expect("parse");
    let styled = style_tree(&doc, &sheet);
    assert_eq!(color_of(&styled, "color"), "green");
}

#[test]
fn cascade_is_idempotent() {
    let doc = html_parse("<div id=\"x\" class=\"y z\"><p>t</p></div>".to_string()).expect("parse");
    let sheet = css_parse(
        "#x {color: red; width: 10px;} .y {color: blue;} p {display: block;}".to_string(),
    )
    .expect("parse");
    let a = style_tree(&doc, &sheet);
    let b = style_tree(&doc, &sheet);
    assert_eq!(a.specified_values.entries.len(), b.specified_values.entries.len());
    for i in 0..a.specified_values.entries.len() {
        let (ka, va) = &a.specified_values.entries[i];
        let (kb, vb) = &b.specified_values.entries[i];
        assert_eq!(ka, kb);
        assert_eq!(format!("{:?}", va), format!("{:?}", vb));
    }
    assert_eq!(a.children.len(), b.children.len());
}

#[test]
fn display_parsing() {
    let doc = html_parse("<div></div>".to_string()).expect("parse");
    let blocky = style_tree(&doc, &css_parse("div {display: block;}".to_string()).unwrap());
    assert_eq!(blocky.display(), Display::Block);
    let nothing = style_tree(&doc, &css_parse("div {display: none;}".to_string()).unwrap());
    assert_eq!(nothing.display(), Display::NoDisplay);
    let plain = style_tree(&doc, &css_parse("".to_string()).unwrap());
    assert_eq!(plain.display(), Display::Inline);
    let odd = style_tree(&doc, &css_parse("div {display: bogus;}".to_string()).unwrap());
    assert_eq!(odd.display(), Display::Inline);
}

#[test]
fn text_nodes_have_no_styles() {
    let t = text("hello".to_string());
    let sheet = css_parse("* {color: red;}".to_string()).expect("parse");
    let styled = style_tree(&t, &sheet);
    assert!(styled.value("color").is_none());
    assert_eq!(styled.children.len(), 0);
}

#[test]
fn lookup_uses_fallback_then_default() {
    let doc = html_parse("<div></div>".to_string()).expect("parse");
    let sheet = css_parse("div {margin: 5px;}".to_string()).expect("parse");
    let styled = style_tree(&doc, &sheet);
    let default = Value::Length(0, tinyrender::css::Unit::Px);
    let got = styled.lookup("margin-left", "margin", &default);
    assert_eq!(got.to_px(), 5);
    let fallback_missing = styled.lookup("padding-left", "padding", &default);
    assert_eq!(fallback_missing.to_px(), 0);
}
