use rsx_template::attribute::{Attribute, AttributeName, AttributeValue};
use rsx_template::body::{BodyNode, TemplateBody, TextNode};
use rsx_template::component::{Component, PathArguments, PathSegment};
use rsx_template::diagnostics::{DiagnosticKind, ParseError};
use rsx_template::element::{Element, ElementName, Ident};
use rsx_template::ifmt::{IfmtInput, Segment, Span};

fn sp(line: u32, column: u32) -> Span {
    Span { line, column }
}

fn lit(s: &str) -> IfmtInput {
    IfmtInput { segments: vec![Segment::Literal(s.to_string())] }
}

fn fmt(parts: &[(&str, bool)]) -> IfmtInput {
    IfmtInput {
        segments: parts
            .iter()
            .map(|(t, f)| if *f { Segment::Formatted(t.to_string()) } else { Segment::Literal(t.to_string()) })
            .collect(),
    }
}

fn field(name: &str, value: AttributeValue, line: u32) -> Attribute {
    Attribute { name: AttributeName::BuiltIn(name.to_string()), value, span: sp(line, 4) }
}

fn spread(expr: &str, line: u32) -> Attribute {
    Attribute { name: AttributeName::Spread, value: AttributeValue::Spread(expr.to_string()), span: sp(line, 4) }
}

fn path(name: &str) -> Vec<PathSegment> {
    vec![PathSegment { ident: Ident { text: name.to_string(), span: sp(1, 0) }, arguments: PathArguments::Plain }]
}

fn hello_div() -> BodyNode {
    let text = BodyNode::Text(TextNode { input: lit("Hello, world!"), dyn_idx: None });
    let name = ElementName::Ident(Ident { text: "div".to_string(), span: sp(8, 4) });
    BodyNode::Element(Element::new(name, None, vec![], vec![text]).unwrap())
}

fn kinds(c: &Component) -> Vec<DiagnosticKind> {
    c.diagnostics.diagnostics.iter().map(|d| d.kind).collect()
}

/// Ensure we can parse a component
#[test]
fn parses() {
    let fields = vec![
        field("key", AttributeValue::Text(fmt(&[("value ", false), ("something", true)])), 2),
        field("prop", AttributeValue::Text(lit("value")), 3),
        spread("props", 4),
    ];
    let component = Component::new(path("MyComponent"), sp(1, 0), None, fields, vec![hello_div()]).unwrap();
    assert!(component.diagnostics.is_empty());
    assert_eq!(component.get_key().unwrap().span, sp(2, 4));
    assert_eq!(component.children.roots.len(), 1);

    let fields = vec![
        field("key", AttributeValue::Text(fmt(&[("value ", false), ("something", true)])), 2),
        field("prop", AttributeValue::Text(lit("value")), 3),
    ];
    let component = Component::new(path("MyComponent"), sp(1, 0), None, fields, vec![hello_div()]).unwrap();
    assert!(component.diagnostics.is_empty());
}

/// Ensure we reject invalid forms
#[test]
fn rejects() {
    let fields = vec![
        field("key", AttributeValue::Text(lit("value")), 2),
        field("prop", AttributeValue::Text(lit("value")), 3),
        field("prop", AttributeValue::Text(lit("other")), 4),
        spread("props", 5),
        spread("other_props", 6),
    ];
    let component = Component::new(path("myComponent"), sp(1, 0), None, fields, vec![hello_div()]).unwrap();
    assert_eq!(
        kinds(&component),
        vec![
            DiagnosticKind::LowercaseName,
            DiagnosticKind::DuplicateField,
            DiagnosticKind::StaticKey,
            DiagnosticKind::MisplacedSpread,
        ]
    );
    assert_eq!(component.diagnostics.diagnostics[1].span, sp(4, 4));
    assert_eq!(component.diagnostics.diagnostics[3].span, sp(5, 4));
}

#[test]
fn as_template_node() {
    let component = Component::new(path("MyComponent"), sp(1, 0), None, vec![], vec![]).unwrap();
    let body = TemplateBody::from_nodes(vec![BodyNode::Component(component)]).unwrap();
    assert_eq!(body.node_paths, vec![vec![0u8]]);
    match body.get_dyn_node(&[0]) {
        BodyNode::Component(c) => assert_eq!(c.dyn_idx, Some(0)),
        _ => panic!("expected a component"),
    }
}

#[test]
fn lowercase_name_and_duplicate_field_keep_first() {
    let fields = vec![
        field("prop", AttributeValue::Text(lit("a")), 2),
        field("prop", AttributeValue::Text(lit("b")), 3),
    ];
    let c = Component::new(path("myComponent"), sp(1, 0), None, fields, vec![]).unwrap();
    assert_eq!(kinds(&c), vec![DiagnosticKind::LowercaseName, DiagnosticKind::DuplicateField]);
    assert_eq!(c.fields[0].value, AttributeValue::Text(lit("a")));
    assert_eq!(c.diagnostics.diagnostics[1].span, sp(3, 4));
}

#[test]
fn valid_component_has_no_diagnostics() {
    let fields = vec![
        field("key", AttributeValue::Text(fmt(&[("row-", false), ("id", true)])), 2),
        field("prop", AttributeValue::Text(lit("a")), 3),
        spread("rest", 4),
    ];
    let c = Component::new(path("Row"), sp(1, 0), None, fields, vec![]).unwrap();
    assert!(c.diagnostics.is_empty());
}

#[test]
fn name_with_underscore_or_path_is_accepted() {
    let c = Component::new(path("my_component"), sp(1, 0), None, vec![], vec![]).unwrap();
    assert!(c.diagnostics.is_empty());
    let mut segs = path("router");
    segs.extend(path("link"));
    let c = Component::new(segs, sp(1, 0), None, vec![], vec![]).unwrap();
    assert!(c.diagnostics.is_empty());
    let c = Component::new(path("Widget"), sp(1, 0), None, vec![], vec![]).unwrap();
    assert!(c.diagnostics.is_empty());
}

#[test]
fn arguments_before_last_segment_fire_alone() {
    let segs = vec![
        PathSegment {
            ident: Ident { text: "Outer".to_string(), span: sp(1, 0) },
            arguments: PathArguments::AngleBracketed("<T>".to_string()),
        },
        PathSegment { ident: Ident { text: "Inner".to_string(), span: sp(1, 9) }, arguments: PathArguments::Plain },
    ];
    let c = Component::new(segs, sp(1, 0), None, vec![], vec![]).unwrap();
    assert_eq!(kinds(&c), vec![DiagnosticKind::ArgumentsBeforeLastSegment]);
}

#[test]
fn parenthesized_last_arguments_fire_alone() {
    let segs = vec![PathSegment {
        ident: Ident { text: "Widget".to_string(), span: sp(1, 0) },
        arguments: PathArguments::Parenthesized("(u8)".to_string()),
    }];
    let c = Component::new(segs, sp(1, 0), None, vec![], vec![]).unwrap();
    assert_eq!(kinds(&c), vec![DiagnosticKind::UnexpectedArguments]);
}

#[test]
fn custom_field_fires_alone() {
    let fields = vec![Attribute {
        name: AttributeName::Custom("data-x".to_string()),
        value: AttributeValue::Text(lit("1")),
        span: sp(2, 4),
    }];
    let c = Component::new(path("Widget"), sp(1, 0), None, fields, vec![]).unwrap();
    assert_eq!(kinds(&c), vec![DiagnosticKind::CustomField]);
}

#[test]
fn misplaced_spread_fires_alone() {
    let fields = vec![spread("rest", 2), field("prop", AttributeValue::Text(lit("a")), 3)];
    let c = Component::new(path("Widget"), sp(1, 0), None, fields, vec![]).unwrap();
    assert_eq!(kinds(&c), vec![DiagnosticKind::MisplacedSpread]);
    assert_eq!(c.diagnostics.diagnostics[0].span, sp(2, 4));
}

#[test]
fn key_checks_fire_alone() {
    let fields = vec![field("key", AttributeValue::Text(lit("fixed")), 2)];
    let c = Component::new(path("Widget"), sp(1, 0), None, fields, vec![]).unwrap();
    assert_eq!(kinds(&c), vec![DiagnosticKind::StaticKey]);
    let fields = vec![field("key", AttributeValue::Expr("id".to_string()), 2)];
    let c = Component::new(path("Widget"), sp(1, 0), None, fields, vec![]).unwrap();
    assert_eq!(kinds(&c), vec![DiagnosticKind::MalformedKey]);
    assert!(c.key().is_none());
}

#[test]
fn component_key_and_messages() {
    let key = fmt(&[("k-", false), ("i", true)]);
    let fields = vec![field("key", AttributeValue::Text(key.clone()), 2)];
    let c = Component::new(path("Widget"), sp(1, 0), None, fields, vec![]).unwrap();
    assert_eq!(c.key(), Some(&key));
    let body = TemplateBody::from_nodes(vec![BodyNode::Component(c)]).unwrap();
    assert_eq!(body.implicit_key, Some(key));

    let c = Component::new(path("w"), sp(1, 0), None, vec![], vec![]).unwrap();
    assert_eq!(
        c.diagnostics.diagnostics[0].message(),
        "Component names must be uppercase, contain an underscore, or be a path."
    );
}

#[test]
fn overflowing_children_are_rejected() {
    let many: Vec<BodyNode> =
        (0..257).map(|_| BodyNode::Text(TextNode { input: lit("x"), dyn_idx: None })).collect();
    assert_eq!(
        Component::new(path("Widget"), sp(1, 0), None, vec![], many).err(),
        Some(ParseError::PathOverflow)
    );
}
