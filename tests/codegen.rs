use component_compiler::ast::{AttrValue, Attribute, ElemTy, Node};
use component_compiler::codegen::{push_decimal, Parser};
use component_compiler::compile::parse;

const TAIL: &str = "\n            }\n        }\n    };\n}\n\nclass App extends SvelteComponent {\n    constructor(options) {\n        super();\n        init(this, options, null, create_fragment, safe_not_equal, {});\n    }\n}\n\nexport default App;\n";

fn html(name: &str, attributes: Vec<Attribute>, children: Vec<Node>) -> Node {
    Node::Element { name: Some(name.into()), kind: ElemTy::HTML, attributes, children, self_closing: false }
}

#[test]
fn module_text_for_two_elements() {
    let c = parse("<div class=\"a\" on={f}><p/></div>");
    assert!(c.errors.is_empty());
    let expected = String::from(
        "import {\n    SvelteComponent,\n    init,\n    safe_not_equal,\n    noop,\n    attr,\n    detach,\n    element,\n    insert,\n} from \"svelte/internal\";\n\n",
    ) + "\n\nfunction create_fragment(ctx) {\n    let div1;\n    let p1;"
        + "\n\n    return {\n        c() {"
        + "\ndiv1 = element(\"div\");\nattr(div1, \"class\", \"a\");\nattr(div1, \"on\", f);\np1 = element(\"p\");"
        + "\n        },\n        m(target, anchor) {"
        + "\ninsert(target, div1, anchor);\ninsert(target, p1, anchor);"
        + "\n        },\n        p: noop,\n        i: noop,\n        o: noop,\n        d(detaching) {\n            if (detaching) {"
        + "\n                detach(div1);\n                detach(p1);"
        + TAIL;
    assert_eq!(c.module.unwrap(), expected);
}

#[test]
fn same_tag_gets_consecutive_numbers() {
    let tree = html(
        "div",
        vec![],
        vec![html("div", vec![], vec![html("div", vec![], vec![])]), html("span", vec![], vec![]), html("div", vec![], vec![])],
    );
    let unit = Parser::new(&tree);
    let text = unit.render();
    for name in ["div1", "div2", "div3", "div4", "span1"] {
        assert!(text.contains(&format!("let {};", name)), "{} missing", name);
        assert!(text.contains(&format!("detach({});", name)), "{} not detached", name);
    }
    assert!(!text.contains("div5"));
    assert!(!text.contains("span2"));
}

#[test]
fn create_elem_var_counts_per_tag() {
    let mut unit = Parser::new(&Node::Text(String::new()));
    assert_eq!(unit.create_elem_var("li"), "li1");
    assert_eq!(unit.create_elem_var("li"), "li2");
    assert_eq!(unit.create_elem_var("ul"), "ul1");
    assert_eq!(unit.create_elem_var("li"), "li3");
}

#[test]
fn imports_are_listed_once() {
    let mut unit = Parser::new(&html("b", vec![], vec![]));
    unit.add_imports(vec!["insert", "init", "insert"]);
    let text = unit.render();
    assert_eq!(text.matches("    insert,").count(), 1);
    assert_eq!(text.matches("    init,").count(), 1);
}

#[test]
fn no_attr_helper_without_attributes() {
    let c = parse("<div></div>");
    let text = c.module.unwrap();
    assert!(!text.contains("attr"));
    assert!(text.contains("    element,"));
}

#[test]
fn text_only_module_needs_no_element_helpers() {
    let c = parse("hello");
    let text = c.module.unwrap();
    assert!(text.starts_with("import {\n    SvelteComponent,\n    init,\n    safe_not_equal,\n    noop,\n} from"));
    assert!(!text.contains("element,"));
}

#[test]
fn script_and_style_are_extracted() {
    let c = parse("<div><script>  let x = 1;  </script><style> p { } </style><p></p></div>");
    assert!(c.errors.is_empty());
    let text = c.module.unwrap();
    assert!(text.contains("\";\n\nlet x = 1;\n\nfunction create_fragment"));
    assert_eq!(c.style, "p { }");
    assert!(!text.contains("element(\"script\")"));
    assert!(!text.contains("element(\"style\")"));
    assert!(text.contains("p1 = element(\"p\");"));
}

#[test]
fn flags_do_not_leak_to_siblings() {
    let tree = html(
        "div",
        vec![],
        vec![html("script", vec![], vec![Node::Text(" a ".into())]), Node::Text("b".into())],
    );
    let unit = Parser::new(&tree);
    assert_eq!(unit.script(), "a");
    assert_eq!(unit.style(), "");
}

#[test]
fn components_generate_no_element_but_children_do() {
    let tree = Node::Element {
        name: Some("Card".into()),
        kind: ElemTy::Component,
        attributes: vec![Attribute { name: "x".into(), value: AttrValue::StaticText("1".into()) }],
        children: vec![html("b", vec![], vec![])],
        self_closing: false,
    };
    let text = Parser::new(&tree).render();
    assert!(!text.contains("Card"));
    assert!(text.contains("b1 = element(\"b\");"));
    assert!(!text.contains("attr"));
}

#[test]
fn rendering_is_deterministic() {
    let src = "<a x='1' y='2'><b z={w}/></a>";
    let one = parse(src).module.unwrap();
    let two = parse(src).module.unwrap();
    assert_eq!(one, two);
    let x = one.find("attr(a1, \"x\"").unwrap();
    let y = one.find("attr(a1, \"y\"").unwrap();
    assert!(x < y);
}

#[test]
fn decimal_numbers() {
    let mut s = String::from("n");
    push_decimal(&mut s, 0);
    assert_eq!(s, "n0");
    let mut s = String::new();
    push_decimal(&mut s, 1209);
    assert_eq!(s, "1209");
}

#[test]
fn tenth_instance_is_numbered_ten() {
    let mut unit = Parser::new(&Node::Text(String::new()));
    let mut last = String::new();
    for _ in 0..10 {
        last = unit.create_elem_var("h");
    }
    assert_eq!(last, "h10");
}

#[test]
fn script_text_is_trimmed_of_unicode_whitespace() {
    let tree = html(
        "div",
        vec![],
        vec![
            html("script", vec![], vec![Node::Text("\u{c}\u{a0} x \u{2003}\u{b}".into())]),
            html("style", vec![], vec![Node::Text("\u{3000}p {}\u{85}".into())]),
        ],
    );
    let unit = Parser::new(&tree);
    assert_eq!(unit.script(), "x");
    assert_eq!(unit.style(), "p {}");
}
