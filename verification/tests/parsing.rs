use tinyrender::css::parser::parse as css_parse;
use tinyrender::css::{Selector, Unit, Value};
use tinyrender::dom::NodeType;
use tinyrender::html::parse as html_parse;

#[test]
fn css_parse_single_rule() {
    let sheet = css_parse(".a { background: #ff0000; width: 100px; height: 50px; }".to_string())
        .expect("stylesheet should parse");
    assert_eq!(sheet.rules.len(), 1);
    let rule = &sheet.rules[0];
    assert_eq!(rule.selectors.len(), 1);
    let Selector::Simple(sel) = &rule.selectors[0];
    assert!(sel.tag_name.is_none());
    assert!(sel.id.is_none());
    assert_eq!(sel.class.len(), 1);
    assert_eq!(sel.class[0], "a");
    assert_eq!(rule.declarations.len(), 3);
    assert_eq!(rule.declarations[0].name, "background");
    match &rule.declarations[0].value {
        Value::ColorValue(c) => {
            assert_eq!(c.r, 255);
            assert_eq!(c.g, 0);
            assert_eq!(c.b, 0);
            assert_eq!(c.a, 255);
        },
        _ => panic!("background should be a color"),
    }
    assert_eq!(rule.declarations[1].name, "width");
    match &rule.declarations[1].value {
        Value::Length(n, Unit::Px) => assert_eq!(*n, 100),
        _ => panic!("width should be a length"),
    }
    assert_eq!(rule.declarations[2].name, "height");
    match &rule.declarations[2].value {
        Value::Length(n, Unit::Px) => assert_eq!(*n, 50),
        _ => panic!("height should be a length"),
    }
}

#[test]
fn css_selectors_sorted_by_specificity() {
    let sheet = css_parse("h1, .x, #y { color: red; }".to_string()).expect("should parse");
    assert_eq!(sheet.rules.len(), 1);
    let sels = &sheet.rules[0].selectors;
    assert_eq!(sels.len(), 3);
    assert_eq!(sels[0].specificity(), (1, 0, 0));
    assert_eq!(sels[1].specificity(), (0, 1, 0));
    assert_eq!(sels[2].specificity(), (0, 0, 1));
}

#[test]
fn css_parse_empty() {
    let sheet = css_parse(String::new()).expect("empty stylesheet should parse");
    assert_eq!(sheet.rules.len(), 0);
}

#[test]
fn css_parse_keyword_value() {
    let sheet = css_parse("div { display: block; margin: auto; }".to_string()).expect("parse");
    let rule = &sheet.rules[0];
    match &rule.declarations[0].value {
        Value::Keyword(k) => assert_eq!(k, "block"),
        _ => panic!("display should be a keyword"),
    }
    match &rule.declarations[1].value {
        Value::Keyword(k) => assert_eq!(k, "auto"),
        _ => panic!("margin should be the auto keyword"),
    }
}

#[test]
fn css_parse_mixed_hex_color() {
    let sheet = css_parse("p { border-color: #0a1B2c; }".to_string()).expect("parse");
    match &sheet.rules[0].declarations[0].value {
        Value::ColorValue(c) => {
            assert_eq!(c.r, 10);
            assert_eq!(c.g, 27);
            assert_eq!(c.b, 44);
        },
        _ => panic!("expected a color"),
    }
}

#[test]
fn css_parse_unit_any_case() {
    let sheet = css_parse("p { width: 10PX; }".to_string()).expect("parse");
    match &sheet.rules[0].declarations[0].value {
        Value::Length(n, Unit::Px) => assert_eq!(*n, 10),
        _ => panic!("expected a length"),
    }
}

#[test]
fn css_parse_unknown_unit_is_error() {
    assert!(css_parse("p { width: 10em; }".to_string()).is_err());
}

#[test]
fn css_parse_unterminated_block_is_error() {
    assert!(css_parse("p { width: 10px;".to_string()).is_err());
}

#[test]
fn css_parse_huge_length_is_error() {
    assert!(css_parse("p { width: 99999999999999999999px; }".to_string()).is_err());
}

#[test]
fn css_parse_truncates_fraction() {
    let sheet = css_parse("p { width: 12.75px; }".to_string()).expect("parse");
    match &sheet.rules[0].declarations[0].value {
        Value::Length(n, Unit::Px) => assert_eq!(*n, 12),
        _ => panic!("expected a length"),
    }
}

#[test]
fn html_parse_nested_elements() {
    let doc = html_parse("<div class=\"a\"><span>x</span></div>".to_string()).expect("parse");
    match &doc.node_type {
        NodeType::Element(e) => {
            assert_eq!(e.tag_name, "div");
            let cls = e.attributes.get("class").expect("class attribute");
            assert_eq!(cls.as_str(), "a");
        },
        _ => panic!("root should be an element"),
    }
    assert_eq!(doc.children.len(), 1);
    match &doc.children[0].node_type {
        NodeType::Element(e) => assert_eq!(e.tag_name, "span"),
        _ => panic!("child should be an element"),
    }
    match &doc.children[0].children[0].node_type {
        NodeType::Text(t) => assert_eq!(t, "x"),
        _ => panic!("grandchild should be text"),
    }
}

#[test]
fn html_parse_wraps_multiple_roots() {
    let doc = html_parse("<p></p><p></p>".to_string()).expect("parse");
    match &doc.node_type {
        NodeType::Element(e) => assert_eq!(e.tag_name, "html"),
        _ => panic!("root should be an element"),
    }
    assert_eq!(doc.children.len(), 2);
}

#[test]
fn html_parse_empty_gives_html_root() {
    let doc = html_parse(String::new()).expect("parse");
    match &doc.node_type {
        NodeType::Element(e) => assert_eq!(e.tag_name, "html"),
        _ => panic!("root should be an element"),
    }
    assert_eq!(doc.children.len(), 0);
}

#[test]
fn html_parse_mismatched_close_is_error() {
    assert!(html_parse("<div>x</span>".to_string()).is_err());
}

#[test]
fn html_parse_single_quoted_attr() {
    let doc = html_parse("<div id='main'></div>".to_string()).expect("parse");
    match &doc.node_type {
        NodeType::Element(e) => {
            assert_eq!(e.attributes.get("id").expect("id").as_str(), "main");
        },
        _ => panic!("root should be an element"),
    }
}
