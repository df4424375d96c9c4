use component_compiler::ast::{AttrValue, Attribute, ElemTy, Node};
use component_compiler::compile::parse;
use component_compiler::doc::elem;
use component_compiler::markup::ParseError;

fn element(name: &str, attributes: Vec<Attribute>, children: Vec<Node>, self_closing: bool) -> Node {
    let kind = if name.starts_with(|c: char| c.is_ascii_uppercase()) {
        ElemTy::Component
    } else {
        ElemTy::HTML
    };
    Node::Element { name: Some(name.into()), kind, attributes, children, self_closing }
}

#[test]
fn children() {
    let (tree, errs) = elem("<e>text</e>");
    assert!(errs.is_empty());
    assert_eq!(tree, Some(element("e", vec![], vec![Node::Text("text".into())], false)));
}

#[test]
fn nested_elements_pair_with_their_closing_tags() {
    let (tree, errs) = elem("<div><p>a</p><br/></div>");
    assert!(errs.is_empty());
    assert_eq!(
        tree,
        Some(element(
            "div",
            vec![],
            vec![
                element("p", vec![], vec![Node::Text("a".into())], false),
                element("br", vec![], vec![], true),
            ],
            false
        ))
    );
}

#[test]
fn several_top_level_nodes_get_a_wrapper() {
    let (tree, errs) = elem("<a/><b/>");
    assert!(errs.is_empty());
    assert_eq!(
        tree,
        Some(Node::Element {
            name: None,
            kind: ElemTy::Wrapper,
            attributes: vec![],
            children: vec![element("a", vec![], vec![], true), element("b", vec![], vec![], true)],
            self_closing: false,
        })
    );
}

#[test]
fn missing_angle_keeps_partial_element() {
    let (tree, errs) = elem("<a");
    assert_eq!(tree, Some(element("a", vec![], vec![], false)));
    assert_eq!(
        errs,
        vec![ParseError::Unexpected { start: 2, end: 2, found: None, expected: vec![">".into()] }]
    );
}

#[test]
fn lone_angle_after_text_keeps_text() {
    let (tree, errs) = elem("text<");
    assert_eq!(tree, Some(Node::Text("text".into())));
    assert_eq!(errs.len(), 1);
    assert!(matches!(errs[0], ParseError::Unexpected { start: 5, found: None, .. }));
}

#[test]
fn mismatched_close_is_reported() {
    let (tree, errs) = elem("<a></b></a>");
    assert_eq!(tree, Some(element("a", vec![], vec![], false)));
    assert_eq!(
        errs,
        vec![ParseError::MismatchedClose { start: 3, end: 7, expected: "a".into(), found: "b".into() }]
    );
}

#[test]
fn stray_close_is_reported() {
    let (tree, errs) = elem("x</b>");
    assert_eq!(tree, Some(Node::Text("x".into())));
    assert_eq!(
        errs,
        vec![ParseError::Custom {
            start: 1,
            end: 5,
            message: "closing tag without an open element".into()
        }]
    );
}

#[test]
fn unclosed_elements_close_at_the_end() {
    let (tree, errs) = elem("<a><b>");
    assert!(errs.is_empty());
    assert_eq!(tree, Some(element("a", vec![], vec![element("b", vec![], vec![], false)], false)));
}

#[test]
fn empty_source_has_no_tree() {
    let (tree, errs) = elem("");
    assert_eq!(tree, None);
    assert!(errs.is_empty());
    let c = parse("");
    assert_eq!(c.module, None);
    assert!(c.errors.is_empty());
}

#[test]
fn bad_attribute_keeps_element_and_goes_on() {
    let (tree, errs) = elem("<a x=y><b/>");
    assert_eq!(errs.len(), 1);
    assert!(matches!(errs[0], ParseError::Unexpected { start: 5, end: 6, found: Some('y'), .. }));
    assert_eq!(
        tree,
        Some(Node::Element {
            name: None,
            kind: ElemTy::Wrapper,
            attributes: vec![],
            children: vec![
                element("a", vec![], vec![], false),
                Node::Text(" x=y>".into()),
                element("b", vec![], vec![], true),
            ],
            self_closing: false,
        })
    );
}

#[test]
fn dynamic_attribute_in_document() {
    let (tree, errs) = elem("<Btn on={go()} />");
    assert!(errs.is_empty());
    assert_eq!(
        tree,
        Some(element(
            "Btn",
            vec![Attribute { name: "on".into(), value: AttrValue::DynamicExpr("go()".into()) }],
            vec![],
            true
        ))
    );
}
