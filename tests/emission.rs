use rsx_template::attribute::{Attribute, AttributeName, AttributeValue};
use rsx_template::body::{BodyNode, ExprNode, TemplateBody, TextNode};
use rsx_template::component::{Component, PathArguments, PathSegment};
use rsx_template::diagnostics::{Diagnostic, DiagnosticKind, Diagnostics};
use rsx_template::element::{Element, ElementName, Ident};
use rsx_template::ifmt::{IfmtInput, Segment, Span};
use rsx_template::template::{TemplateAttribute, TemplateNode};

fn sp(line: u32, column: u32) -> Span {
    Span { line, column }
}

fn lit(s: &str) -> IfmtInput {
    IfmtInput { segments: vec![Segment::Literal(s.to_string())] }
}

fn interp(before: &str, expr: &str) -> IfmtInput {
    IfmtInput { segments: vec![Segment::Literal(before.to_string()), Segment::Formatted(expr.to_string())] }
}

fn attr(name: &str, value: AttributeValue) -> Attribute {
    Attribute { name: AttributeName::BuiltIn(name.to_string()), value, span: sp(2, 8) }
}

fn el(tag: &str, attrs: Vec<Attribute>, children: Vec<BodyNode>) -> BodyNode {
    let name = ElementName::Ident(Ident { text: tag.to_string(), span: sp(1, 0) });
    BodyNode::Element(Element::new(name, None, attrs, children).unwrap())
}

fn path(name: &str) -> Vec<PathSegment> {
    vec![PathSegment { ident: Ident { text: name.to_string(), span: sp(1, 0) }, arguments: PathArguments::Plain }]
}

#[test]
fn skeleton_inlines_static_parts_and_marks_slots() {
    let body = TemplateBody::from_nodes(vec![el(
        "div",
        vec![
            attr("class", AttributeValue::Text(lit("a"))),
            attr("class", AttributeValue::Text(lit("b"))),
            attr("id", AttributeValue::Text(interp("n-", "i"))),
        ],
        vec![
            BodyNode::Text(TextNode { input: lit("hello"), dyn_idx: None }),
            BodyNode::Text(TextNode { input: interp("v=", "v"), dyn_idx: None }),
            el("p", vec![attr("onclick", AttributeValue::Event("h".to_string()))], vec![]),
            BodyNode::RawExpr(ExprNode { expr: "e".to_string(), dyn_idx: None }),
        ],
    )])
    .unwrap();
    let t = body.to_template().unwrap();
    assert_eq!(t.template_idx, 0);
    assert_eq!(t.node_paths, vec![vec![0u8, 1], vec![0, 3]]);
    assert_eq!(t.attr_paths, vec![vec![0u8, 1], vec![0, 2, 0]]);
    let expected = TemplateNode::Element {
        tag: "div".to_string(),
        attrs: vec![
            TemplateAttribute::Static { name: "class".to_string(), value: "ab".to_string() },
            TemplateAttribute::Dynamic { id: 0 },
        ],
        children: vec![
            TemplateNode::Text { text: "hello".to_string() },
            TemplateNode::DynamicText { id: 0 },
            TemplateNode::Element {
                tag: "p".to_string(),
                attrs: vec![TemplateAttribute::Dynamic { id: 1 }],
                children: vec![],
            },
            TemplateNode::Dynamic { id: 1 },
        ],
    };
    assert_eq!(t.roots, vec![expected]);
    assert_eq!(t.key, None);
}

#[test]
fn empty_body_has_no_template() {
    let body = TemplateBody::from_nodes(vec![]).unwrap();
    assert!(body.to_template().is_none());
}

#[test]
fn template_carries_the_implicit_key() {
    let name = ElementName::Ident(Ident { text: "li".to_string(), span: sp(1, 0) });
    let li = Element::new(name, Some(interp("k-", "id")), vec![], vec![]).unwrap();
    let mut body = TemplateBody::from_nodes(vec![BodyNode::Element(li)]).unwrap();
    body.template_idx = 3;
    let t = body.to_template().unwrap();
    assert_eq!(t.key, Some(interp("k-", "id")));
    assert_eq!(t.template_idx, 3);
}

#[test]
fn props_builder_takes_first_of_each_field() {
    let fields = vec![
        attr("key", AttributeValue::Text(interp("k-", "i"))),
        attr("prop", AttributeValue::Text(lit("a"))),
        attr("prop", AttributeValue::Text(lit("b"))),
        Attribute { name: AttributeName::Custom("x".to_string()), value: AttributeValue::Expr("1".to_string()), span: sp(3, 0) },
        attr("other", AttributeValue::Expr("2".to_string())),
        Attribute { name: AttributeName::Spread, value: AttributeValue::Spread("rest".to_string()), span: sp(4, 0) },
    ];
    let c = Component::new(path("myComponent"), sp(1, 0), None, fields, vec![]).unwrap();
    let props = c.make_field_idents();
    assert_eq!(props.len(), 2);
    assert_eq!(props[0].value, AttributeValue::Text(lit("a")));
    assert_eq!(props[1].value, AttributeValue::Expr("2".to_string()));
    assert_eq!(c.manual_props(), Some(&"rest".to_string()));
    assert_eq!(c.fn_name(), "myComponent");
}

#[test]
fn no_spread_means_builder_props() {
    let mut segs = path("router");
    segs.extend(path("Link"));
    let c = Component::new(segs, sp(1, 0), None, vec![], vec![]).unwrap();
    assert_eq!(c.manual_props(), None);
    assert_eq!(c.fn_name(), "Link");
    assert!(c.make_field_idents().is_empty());
}

#[test]
fn diagnostics_collect_in_order() {
    let mut d = Diagnostics::new();
    assert!(d.is_empty());
    d.push(Diagnostic { kind: DiagnosticKind::StaticKey, span: sp(1, 1) });
    d.extend(vec![
        Diagnostic { kind: DiagnosticKind::CustomField, span: sp(2, 2) },
        Diagnostic { kind: DiagnosticKind::MisplacedSpread, span: sp(3, 3) },
    ]);
    assert!(!d.is_empty());
    let all = d.into_diagnostics();
    assert_eq!(all.len(), 3);
    assert_eq!(all[0].kind, DiagnosticKind::StaticKey);
    assert_eq!(all[2].span, sp(3, 3));
}
