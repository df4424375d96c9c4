use component_compiler::ast::{classify, AttrValue, Attribute, ElemTy, Node};
use component_compiler::lex::Token;
use component_compiler::doc::elem;
use component_compiler::markup::{attr, ParseError};

fn text_attr(name: &str, value: &str) -> Attribute {
    Attribute { name: name.to_string(), value: AttrValue::StaticText(value.to_string()) }
}

#[test]
fn main_text() {
    let ex = Ok(text_attr("a", "b"));
    assert_eq!(attr("a=\"b\""), ex);
    assert_eq!(attr("a='b'"), ex);
}

#[test]
fn js() {
    assert_eq!(
        attr("a={b()}"),
        Ok(Attribute { name: "a".to_string(), value: AttrValue::DynamicExpr("b()".to_string()) })
    );
}

#[test]
fn without_quotes() {
    let a = attr("a=b").expect_err("no quotes or braces");
    assert_eq!(a.len(), 1);
    let a = a.get(0).expect("one error");
    match a {
        ParseError::Unexpected { start, end, found, expected } => {
            assert_eq!((*start, *end), (2, 3));
            assert_eq!(*found, Some('b'));
            assert_eq!(expected, &vec!["{".to_string(), "\"".to_string(), "'".to_string()]);
        }
        other => panic!("unexpected error {:?}", other),
    }
}

#[test]
fn text() {
    let (tree, errs) = elem("text<");
    assert_eq!(tree, Some(Node::Text("text".into())));
    assert_eq!(errs.len(), 1);
    assert!(matches!(errs[0], ParseError::Unexpected { start: 5, found: None, .. }));
}

#[test]
fn self_closing() {
    assert_eq!(
        elem("<e />"),
        (Some(Node::Element {
            name: Some("e".into()),
            kind: ElemTy::HTML,
            attributes: vec![],
            children: vec![],
            self_closing: true,
        }), vec![])
    );
}

#[test]
fn component() {
    assert_eq!(
        elem("<E>"),
        (Some(Node::Element {
            name: Some("E".into()),
            kind: ElemTy::Component,
            attributes: vec![],
            children: vec![],
            self_closing: false,
        }), vec![])
    )
}

#[test]
fn self_closing_with_attribute() {
    assert_eq!(
        elem("<input value=\"v\" />"),
        (Some(Node::Element {
            name: Some("input".into()),
            kind: ElemTy::HTML,
            attributes: vec![text_attr("value", "v")],
            children: vec![],
            self_closing: true,
        }), vec![])
    );
}

#[test]
fn attributes_keep_their_order_and_spacing() {
    assert_eq!(
        elem("<a x = 'one'  y={two} >"),
        (Some(Node::Element {
            name: Some("a".into()),
            kind: ElemTy::HTML,
            attributes: vec![
                text_attr("x", "one"),
                Attribute { name: "y".into(), value: AttrValue::DynamicExpr("two".into()) },
            ],
            children: vec![],
            self_closing: false,
        }), vec![])
    );
}

#[test]
fn closing_tag_pairs_with_open_element() {
    let (tree, errs) = elem("<div></div>");
    assert!(errs.is_empty());
    assert_eq!(
        tree,
        Some(Node::Element {
            name: Some("div".into()),
            kind: ElemTy::HTML,
            attributes: vec![],
            children: vec![],
            self_closing: false,
        })
    );
}

#[test]
fn missing_angle_is_unexpected_end() {
    let (_, errs) = elem("<a");
    assert_eq!(
        errs,
        vec![ParseError::Unexpected {
            start: 2,
            end: 2,
            found: None,
            expected: vec![">".to_string()],
        }]
    );
}

#[test]
fn unclosed_value_reports_its_opening() {
    let errs = attr("a=\"bc").expect_err("unclosed");
    assert_eq!(
        errs,
        vec![ParseError::UnclosedDelimiter { open_start: 2, open_end: 3, delimiter: '"', at: 5 }]
    );
}

#[test]
fn escaped_quote_does_not_close() {
    assert_eq!(attr("a=\"x\\\"y\""), Ok(text_attr("a", "x\\\"y")));
}

#[test]
fn missing_equal_is_unexpected() {
    let errs = attr("a \"b\"").expect_err("no equal sign");
    match &errs[0] {
        ParseError::Unexpected { start, found, expected, .. } => {
            assert_eq!(*start, 2);
            assert_eq!(*found, Some('"'));
            assert_eq!(expected, &vec!["=".to_string()]);
        }
        other => panic!("unexpected error {:?}", other),
    }
}

#[test]
fn classify_by_first_letter() {
    assert_eq!(classify("Button"), ElemTy::Component);
    assert_eq!(classify("button"), ElemTy::HTML);
    assert_eq!(classify("_x"), ElemTy::HTML);
}

#[test]
fn tag_heads_from_tokens() {
    let open = Node::from_tokens(&Token::lex("<Nav>")).unwrap();
    assert_eq!(
        open,
        Node::Element {
            name: Some("Nav".into()),
            kind: ElemTy::Component,
            attributes: vec![],
            children: vec![],
            self_closing: false,
        }
    );
    assert_eq!(Node::from_tokens(&Token::lex("</nav>")), Some(Node::CloseMarker("nav".into())));
    assert_eq!(Node::from_tokens(&Token::lex("<!--x")), Some(Node::Comment("x".into())));
    assert_eq!(Node::from_tokens(&Token::lex("<=")), None);
    assert_eq!(Node::from_tokens(&Token::lex("")), None);
}

#[test]
fn attribute_list_stops_at_tag_end() {
    let src = "<a x='1' y={2}/>";
    let cs: Vec<char> = src.chars().collect();
    let (attrs, end, err) = Node::parse_attributes(src, &cs, 2);
    assert_eq!(
        attrs,
        vec![
            text_attr("x", "1"),
            Attribute { name: "y".into(), value: AttrValue::DynamicExpr("2".into()) },
        ]
    );
    assert_eq!(end, 14);
    assert_eq!(err, None);
}

#[test]
fn attribute_list_keeps_attributes_before_a_failure() {
    let src = "<a x='1' y=2>";
    let cs: Vec<char> = src.chars().collect();
    let (attrs, end, err) = Node::parse_attributes(src, &cs, 2);
    assert_eq!(attrs, vec![text_attr("x", "1")]);
    assert_eq!(end, 8);
    assert!(matches!(err, Some(ParseError::Unexpected { start: 11, end: 12, .. })));
}
