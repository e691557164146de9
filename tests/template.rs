use rsx_template::attribute::{merge_attributes, Attribute, AttributeName, AttributeValue};
use rsx_template::body::{BodyNode, ExprNode, ForLoop, IfBranch, IfChain, TemplateBody, TextNode};
use rsx_template::diagnostics::ParseError;
use rsx_template::element::{Element, ElementName, Ident};
use rsx_template::ifmt::{IfmtInput, Segment, Span};

fn sp(line: u32, column: u32) -> Span {
    Span { line, column }
}

fn lit(s: &str) -> IfmtInput {
    IfmtInput { segments: vec![Segment::Literal(s.to_string())] }
}

fn interp(before: &str, expr: &str) -> IfmtInput {
    IfmtInput { segments: vec![Segment::Literal(before.to_string()), Segment::Formatted(expr.to_string())] }
}

fn attr(name: &str, value: AttributeValue, line: u32) -> Attribute {
    Attribute { name: AttributeName::BuiltIn(name.to_string()), value, span: sp(line, 8) }
}

fn text(t: IfmtInput) -> BodyNode {
    BodyNode::Text(TextNode { input: t, dyn_idx: None })
}

fn expr(e: &str) -> BodyNode {
    BodyNode::RawExpr(ExprNode { expr: e.to_string(), dyn_idx: None })
}

fn name(tag: &str) -> ElementName {
    ElementName::Ident(Ident { text: tag.to_string(), span: sp(1, 0) })
}

fn el(tag: &str, attrs: Vec<Attribute>, children: Vec<BodyNode>) -> BodyNode {
    BodyNode::Element(Element::new(name(tag), None, attrs, children).unwrap())
}

fn slot(n: &BodyNode) -> Option<usize> {
    match n {
        BodyNode::Element(_) => None,
        BodyNode::Text(t) => t.dyn_idx,
        BodyNode::RawExpr(e) => e.dyn_idx,
        BodyNode::ForLoop(f) => f.dyn_idx,
        BodyNode::IfChain(c) => c.dyn_idx,
        BodyNode::Component(c) => c.dyn_idx,
    }
}

#[test]
fn static_class_fragments_concatenate() {
    let attrs = vec![
        attr("class", AttributeValue::Text(lit("a")), 2),
        attr("class", AttributeValue::Text(lit("b")), 3),
    ];
    let e = Element::new(name("div"), None, attrs, vec![]).unwrap();
    assert_eq!(e.attributes.len(), 2);
    assert_eq!(e.merged_attributes.len(), 1);
    assert_eq!(e.merged_attributes[0].span, sp(2, 8));
    match &e.merged_attributes[0].value {
        AttributeValue::Text(t) => assert_eq!(t.to_static(), Some("ab".to_string())),
        _ => panic!("expected text"),
    }
}

#[test]
fn duplicate_event_handler_is_an_error() {
    let attrs = vec![
        attr("onclick", AttributeValue::Event("handler_a".to_string()), 2),
        attr("onclick", AttributeValue::Event("handler_b".to_string()), 3),
    ];
    let r = Element::new(name("div"), None, attrs, vec![]);
    assert_eq!(r.err(), Some(ParseError::DuplicateEventListener(sp(3, 8))));
}

#[test]
fn distinct_event_handlers_are_fine() {
    let attrs = vec![
        attr("onclick", AttributeValue::Event("a".to_string()), 2),
        attr("oninput", AttributeValue::Event("b".to_string()), 3),
    ];
    let e = Element::new(name("div"), None, attrs, vec![]).unwrap();
    assert_eq!(e.merged_attributes.len(), 2);
}

#[test]
fn static_element_key_is_an_error() {
    let r = Element::new(name("li"), Some(lit("k")), vec![], vec![]);
    assert_eq!(r.err(), Some(ParseError::StaticKey(sp(1, 0))));
    let e = Element::new(name("li"), Some(interp("k-", "id")), vec![], vec![]).unwrap();
    assert_eq!(e.key, Some(interp("k-", "id")));
}

#[test]
fn uncombinable_duplicate_keeps_first() {
    let attrs = vec![
        attr("value", AttributeValue::Expr("x".to_string()), 2),
        attr("value", AttributeValue::Text(lit("y")), 3),
        attr("id", AttributeValue::Text(lit("i")), 4),
    ];
    let merged = merge_attributes(&attrs);
    assert_eq!(merged.len(), 2);
    assert_eq!(merged[0].value, AttributeValue::Expr("x".to_string()));
    assert_eq!(merged[1].value, AttributeValue::Text(lit("i")));
}

#[test]
fn spreads_never_merge() {
    let s = |e: &str| Attribute { name: AttributeName::Spread, value: AttributeValue::Spread(e.to_string()), span: sp(2, 0) };
    let merged = merge_attributes(&vec![s("a"), s("b")]);
    assert_eq!(merged.len(), 2);
}

#[test]
fn merging_twice_changes_nothing() {
    let attrs = vec![
        attr("class", AttributeValue::Text(lit("a")), 2),
        attr("id", AttributeValue::Text(interp("n-", "i")), 3),
        attr("class", AttributeValue::Text(interp("b-", "c")), 4),
        attr("onclick", AttributeValue::Event("h".to_string()), 5),
    ];
    let once = merge_attributes(&attrs);
    let twice = merge_attributes(&once);
    assert_eq!(once.len(), 3);
    assert_eq!(once, twice);
}

#[test]
fn loop_body_is_indexed_on_its_own() {
    let inner = TemplateBody::from_nodes(vec![el("div", vec![], vec![text(lit("item"))])]).unwrap();
    assert!(inner.node_paths.is_empty());
    assert!(inner.attr_paths.is_empty());
    let floop = ForLoop { pat: "x".to_string(), expr: "0..3".to_string(), body: inner, dyn_idx: None };
    let outer = TemplateBody::from_nodes(vec![BodyNode::ForLoop(floop)]).unwrap();
    assert_eq!(outer.node_paths, vec![vec![0u8]]);
    match outer.get_dyn_node(&[0]) {
        BodyNode::ForLoop(f) => {
            assert_eq!(f.dyn_idx, Some(0));
            assert_eq!(f.body.roots.len(), 1);
            assert!(f.body.node_paths.is_empty());
        }
        _ => panic!("expected a loop"),
    }
}

#[test]
fn slots_are_dense_in_traversal_order() {
    let chain = IfChain {
        branches: vec![IfBranch { cond: "c".to_string(), body: TemplateBody::from_nodes(vec![]).unwrap() }],
        else_branch: None,
        dyn_idx: None,
    };
    let body = TemplateBody::from_nodes(vec![
        el(
            "div",
            vec![
                attr("class", AttributeValue::Text(lit("static")), 2),
                attr("id", AttributeValue::Text(interp("n-", "i")), 3),
            ],
            vec![text(lit("plain")), text(interp("v=", "v")), el("span", vec![], vec![expr("a")])],
        ),
        BodyNode::IfChain(chain),
        expr("b"),
    ])
    .unwrap();
    assert_eq!(body.node_paths, vec![vec![0u8, 1], vec![0, 2, 0], vec![1], vec![2]]);
    assert_eq!(body.attr_paths, vec![vec![0u8, 1]]);
    let nodes = body.dynamic_nodes();
    assert_eq!(nodes.len(), 4);
    for (k, n) in nodes.iter().enumerate() {
        assert_eq!(slot(n), Some(k));
    }
    let attrs = body.dynamic_attributes();
    assert_eq!(attrs.len(), 1);
    assert_eq!(attrs[0].value, AttributeValue::Text(interp("n-", "i")));
}

#[test]
fn recorded_paths_lead_back_to_their_slots() {
    let body = TemplateBody::from_nodes(vec![
        text(interp("a", "b")),
        el("ul", vec![], vec![el("li", vec![], vec![expr("x"), text(lit("y")), expr("z")])]),
    ])
    .unwrap();
    for (k, p) in body.node_paths.iter().enumerate() {
        assert_eq!(slot(body.get_dyn_node(p)), Some(k));
    }
    assert_eq!(body.node_paths[2], vec![1u8, 0, 2]);
}

#[test]
fn static_subtree_records_nothing() {
    let body = TemplateBody::from_nodes(vec![el(
        "div",
        vec![attr("class", AttributeValue::Text(lit("c")), 2)],
        vec![text(lit("hi")), el("b", vec![], vec![text(lit("there"))])],
    )])
    .unwrap();
    assert!(body.node_paths.is_empty());
    assert!(body.attr_paths.is_empty());
    assert!(!body.is_empty());
}

#[test]
fn text_is_static_without_interpolation() {
    assert!(lit("plain").is_static());
    assert!(!interp("a", "b").is_static());
    assert_eq!(interp("a", "b").to_static(), None);
}

#[test]
fn empty_body_is_empty() {
    let body = TemplateBody::from_nodes(vec![]).unwrap();
    assert!(body.is_empty());
    assert!(body.node_paths.is_empty());
    assert_eq!(body.implicit_key, None);
}

#[test]
fn implicit_key_comes_from_a_single_keyed_root() {
    let keyed = BodyNode::Element(Element::new(name("li"), Some(interp("k-", "id")), vec![], vec![]).unwrap());
    let body = TemplateBody::from_nodes(vec![keyed]).unwrap();
    assert_eq!(body.implicit_key, Some(interp("k-", "id")));
    assert_eq!(body.implicit_key(), Some(interp("k-", "id")));
    let a = BodyNode::Element(Element::new(name("li"), Some(interp("k-", "id")), vec![], vec![]).unwrap());
    let body = TemplateBody::from_nodes(vec![a, expr("e")]).unwrap();
    assert_eq!(body.implicit_key, None);
}

#[test]
fn too_many_siblings_overflow() {
    let many: Vec<BodyNode> = (0..257).map(|_| text(lit("x"))).collect();
    assert_eq!(TemplateBody::from_nodes(many).err(), Some(ParseError::PathOverflow));
    let fine: Vec<BodyNode> = (0..256).map(|_| expr("x")).collect();
    let body = TemplateBody::from_nodes(fine).unwrap();
    assert_eq!(body.node_paths[255], vec![255u8]);
}

#[test]
fn too_deep_overflows() {
    let mut node = expr("leaf");
    for _ in 0..255 {
        node = el("div", vec![], vec![node]);
    }
    assert_eq!(TemplateBody::from_nodes(vec![node]).err(), Some(ParseError::PathOverflow));
    let mut node = expr("leaf");
    for _ in 0..254 {
        node = el("div", vec![], vec![node]);
    }
    let body = TemplateBody::from_nodes(vec![node]).unwrap();
    assert_eq!(body.node_paths[0].len(), 255);
}

#[test]
fn element_name_accessors() {
    let n = ElementName::Custom(Ident { text: "my-widget".to_string(), span: sp(4, 2) });
    assert!(n.eq_str("my-widget"));
    assert!(!n.eq_str("div"));
    assert_eq!(n.tag_name(), "my-widget");
    assert_eq!(n.span(), sp(4, 2));
}

#[test]
fn dashed_tag_becomes_custom_name() {
    let parts = vec![
        Ident { text: "my".to_string(), span: sp(1, 0) },
        Ident { text: "custom".to_string(), span: sp(1, 3) },
        Ident { text: "tag".to_string(), span: sp(1, 10) },
    ];
    match ElementName::from_parts(parts) {
        ElementName::Custom(i) => {
            assert_eq!(i.text, "my-custom-tag");
            assert_eq!(i.span, sp(1, 0));
        }
        _ => panic!("expected a custom name"),
    }
    let single = ElementName::from_parts(vec![Ident { text: "div".to_string(), span: sp(2, 0) }]);
    assert_eq!(single, ElementName::Ident(Ident { text: "div".to_string(), span: sp(2, 0) }));
}
