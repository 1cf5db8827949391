use bulletml::elem::Element;
use bulletml::errors::ParseError;
use bulletml::parse::BulletYAMLParser;
use bulletml::tree::{BulletMLExpression, BulletMLNode, BulletMLType};
use fasteval::Evaler;

fn el(tag: &str, attrs: &[(&str, &str)], text: &str, children: Vec<Element>, pos: u32) -> Element {
    Element {
        tag: tag.to_string(),
        attrs: attrs.iter().map(|(k, v)| (k.to_string(), v.to_string())).collect(),
        text: text.to_string(),
        children,
        pos,
    }
}

fn doc(children: Vec<Element>) -> Element {
    el("bulletml", &[], "", children, 0)
}

#[test]
fn root_tag_rejected() {
    let root = el("foo", &[], "", vec![], 7);
    let res = BulletYAMLParser::new().parse(&root);
    assert_eq!(res.err(), Some(ParseError::UnexpectedElement("foo".to_string(), 7)));
}

#[test]
fn unknown_tag_inside_rejected() {
    let root = doc(vec![el("action", &[("label", "a")], "", vec![el("banana", &[], "", vec![], 9)], 1)]);
    let res = BulletYAMLParser::new().parse(&root);
    assert_eq!(res.err(), Some(ParseError::UnexpectedElement("banana".to_string(), 9)));
}

#[test]
fn duplicate_label_same_namespace() {
    let root = doc(vec![
        el("bullet", &[("label", "b")], "", vec![], 1),
        el("bullet", &[("label", "b")], "", vec![], 2),
    ]);
    let res = BulletYAMLParser::new().parse(&root);
    assert_eq!(res.err(), Some(ParseError::DuplicateLabel("b".to_string(), 2)));
}

#[test]
fn label_shared_across_namespaces() {
    let root = doc(vec![
        el("bullet", &[("label", "x")], "", vec![], 1),
        el("action", &[("label", "x")], "", vec![], 2),
    ]);
    let res = BulletYAMLParser::new().parse(&root);
    let bundle = res.expect("a label reused across namespaces must parse");
    assert!(bundle.bullet_refs.contains("x"));
    assert!(bundle.action_refs.contains("x"));
    assert!(!bundle.fire_refs.contains("x"));
}

#[test]
fn forward_reference_resolves() {
    let root = doc(vec![
        el("action", &[("label", "top")], "", vec![el("fireRef", &[("label", "f")], "", vec![], 2)], 1),
        el("fire", &[("label", "f")], "", vec![], 3),
    ]);
    let res = BulletYAMLParser::new().parse(&root);
    let bundle = res.expect("a forward reference must resolve");
    assert!(bundle.fire_refs.contains("f"));
    assert!(bundle.action_refs.contains("top"));
}

#[test]
fn unresolved_reference_rejected() {
    let root = doc(vec![
        el("action", &[("label", "top")], "", vec![el("fireRef", &[("label", "missing")], "", vec![], 5)], 1),
    ]);
    let res = BulletYAMLParser::new().parse(&root);
    assert_eq!(res.err(), Some(ParseError::UnresolvedReference("missing".to_string(), 5)));
}

#[test]
fn reference_without_label_is_unresolved_empty() {
    let root = doc(vec![
        el("action", &[("label", "top")], "", vec![el("actionRef", &[], "", vec![], 4)], 1),
    ]);
    let res = BulletYAMLParser::new().parse(&root);
    assert_eq!(res.err(), Some(ParseError::UnresolvedReference(String::new(), 4)));
}

#[test]
fn literal_fast_path() {
    let mut p = BulletYAMLParser::new();
    assert_eq!(
        p.compile_expression("3.5", 0),
        Ok(BulletMLExpression::Const(3.5f64.to_bits()))
    );
    assert_eq!(
        p.compile_expression("-2.25", 0),
        Ok(BulletMLExpression::Const((-2.25f64).to_bits()))
    );
    assert_eq!(
        p.compile_expression("+.5", 0),
        Ok(BulletMLExpression::Const(0.5f64.to_bits()))
    );
    assert_eq!(
        p.compile_expression("7.", 0),
        Ok(BulletMLExpression::Const(7.0f64.to_bits()))
    );
    assert_eq!(
        p.compile_expression("180", 0),
        Ok(BulletMLExpression::Const(180.0f64.to_bits()))
    );
}

#[test]
fn empty_and_malformed_numeric_fields() {
    let mut p = BulletYAMLParser::new();
    assert_eq!(p.compile_expression("", 5), Err(ParseError::InvalidNumericField(5)));
    assert_eq!(p.compile_expression("1.2.3", 6), Err(ParseError::InvalidNumericField(6)));
    assert_eq!(p.compile_expression("))(", 8), Err(ParseError::InvalidNumericField(8)));
}

#[test]
fn general_expression_evaluates_with_rank() {
    let mut p = BulletYAMLParser::new();
    let compiled = p.compile_expression("1+rank*2", 0).expect("a valid expression must compile");
    let idx = match compiled {
        BulletMLExpression::Expr(i) => i,
        BulletMLExpression::Const(_) => panic!("a general expression must not take the literal fast path"),
    };
    let slab = p.expression_slab();
    let expr = slab.ps.get_expr(fasteval::ExpressionI(idx));
    let mut ns = std::collections::BTreeMap::<String, f64>::new();
    ns.insert("rank".to_string(), 1.0);
    assert_eq!(expr.eval(slab, &mut ns).expect("evaluation must succeed"), 3.0);
    ns.insert("rank".to_string(), 0.25);
    assert_eq!(expr.eval(slab, &mut ns).expect("evaluation must succeed"), 1.5);
}

#[test]
fn capacity_exceeded_on_second_expression() {
    let mut p = BulletYAMLParser::with_capacities(4, 1);
    assert!(p.compile_expression("1+rank", 0).is_ok());
    assert_eq!(
        p.compile_expression("2*rank", 3),
        Err(ParseError::ExpressionCapacityExceeded(3))
    );
}

#[test]
fn capacity_exceeded_in_document() {
    let root = doc(vec![el(
        "action",
        &[("label", "top")],
        "",
        vec![
            el("wait", &[], "1+rank", vec![], 2),
            el("wait", &[], "2*rank", vec![], 3),
        ],
        1,
    )]);
    let res = BulletYAMLParser::with_capacities(4, 1).parse(&root);
    assert_eq!(res.err(), Some(ParseError::ExpressionCapacityExceeded(3)));
}

#[test]
fn literals_never_touch_the_pool() {
    let root = doc(vec![el(
        "action",
        &[("label", "top")],
        "",
        vec![
            el("wait", &[], "1", vec![], 2),
            el("wait", &[], "2.5", vec![], 3),
            el("wait", &[], "-3", vec![], 4),
        ],
        1,
    )]);
    let res = BulletYAMLParser::with_capacities(4, 0).parse(&root);
    assert!(res.is_ok(), "literal-only documents must fit any pool capacity");
}

#[test]
fn empty_numeric_field_position_reported() {
    let root = doc(vec![el(
        "action",
        &[("label", "top")],
        "",
        vec![el(
            "changeDirection",
            &[],
            "",
            vec![
                el("direction", &[("type", "aim")], "", vec![], 42),
                el("term", &[], "10", vec![], 43),
            ],
            2,
        )],
        1,
    )]);
    let res = BulletYAMLParser::new().parse(&root);
    assert_eq!(res.err(), Some(ParseError::InvalidNumericField(42)));
}

#[test]
fn fire_template_with_forward_bullet() {
    let root = doc(vec![
        el(
            "fire",
            &[("label", "f1")],
            "",
            vec![
                el("direction", &[("type", "absolute")], "90", vec![], 2),
                el("bulletRef", &[("label", "b1")], "", vec![], 3),
            ],
            1,
        ),
        el("bullet", &[("label", "b1")], "", vec![el("speed", &[], "2", vec![], 5)], 4),
    ]);
    let res = BulletYAMLParser::new().parse(&root);
    let bundle = res.expect("the fire template scenario must parse");
    assert!(bundle.fire_refs.contains("f1"));
    assert!(bundle.bullet_refs.contains("b1"));
    let mut saw_fire = false;
    let mut saw_bullet = false;
    let mut saw_bullet_ref = false;
    for id in bundle.root.descendants(&bundle.arena) {
        match bundle.arena[id].get() {
            BulletMLNode::Fire { label: Some(l) } if l == "f1" => saw_fire = true,
            BulletMLNode::Bullet { label: Some(l) } if l == "b1" => saw_bullet = true,
            BulletMLNode::BulletRef { label } if label == "b1" => saw_bullet_ref = true,
            _ => {}
        }
    }
    assert!(saw_fire, "walking from the root must reach the fire definition");
    assert!(saw_bullet, "walking from the root must reach the bullet definition");
    assert!(saw_bullet_ref, "walking from the root must reach the reference");
    let b1 = bundle.bullet_refs.lookup("b1").expect("the bullet label must resolve");
    match bundle.arena[b1].get() {
        BulletMLNode::Bullet { label: Some(l) } => assert_eq!(l, "b1"),
        other => panic!("the bullet table must point at the bullet definition, not {:?}", other),
    }
    let f1 = bundle.fire_refs.lookup("f1").expect("the fire label must resolve");
    match bundle.arena[f1].get() {
        BulletMLNode::Fire { label: Some(l) } => assert_eq!(l, "f1"),
        other => panic!("the fire table must point at the fire definition, not {:?}", other),
    }
}

#[test]
fn orientation_attribute_is_kept() {
    let root = el("bulletml", &[("type", "vertical")], "", vec![], 0);
    let bundle = BulletYAMLParser::new().parse(&root).expect("an empty document must parse");
    match bundle.arena[bundle.root].get() {
        BulletMLNode::BulletML { bml_type } => assert_eq!(*bml_type, Some(BulletMLType::Vertical)),
        _ => panic!("the root node must be the document node"),
    }
}

#[test]
fn full_grammar_document() {
    let root = doc(vec![
        el(
            "action",
            &[("label", "top")],
            "",
            vec![
                el(
                    "repeat",
                    &[],
                    "",
                    vec![
                        el("times", &[], "8", vec![], 3),
                        el(
                            "action",
                            &[],
                            "",
                            vec![
                                el(
                                    "fire",
                                    &[],
                                    "",
                                    vec![
                                        el("direction", &[("type", "sequence")], "45", vec![], 6),
                                        el("bullet", &[], "", vec![], 7),
                                    ],
                                    5,
                                ),
                                el("wait", &[], "5", vec![], 8),
                                el(
                                    "changeSpeed",
                                    &[],
                                    "",
                                    vec![
                                        el("speed", &[("type", "relative")], "1", vec![], 10),
                                        el("term", &[], "20", vec![], 11),
                                    ],
                                    9,
                                ),
                                el(
                                    "accel",
                                    &[],
                                    "",
                                    vec![
                                        el("horizontal", &[], "0.1", vec![], 13),
                                        el("vertical", &[], "0.2", vec![], 14),
                                        el("term", &[], "30", vec![], 15),
                                    ],
                                    12,
                                ),
                                el("vanish", &[], "", vec![], 16),
                            ],
                            4,
                        ),
                    ],
                    2,
                ),
            ],
            1,
        ),
    ]);
    let res = BulletYAMLParser::new().parse(&root);
    let bundle = res.expect("a document using the whole grammar must parse");
    assert!(bundle.action_refs.contains("top"));
    let count = bundle.root.descendants(&bundle.arena).count();
    assert_eq!(count, 17, "one arena node per element, plus the root");
}

#[test]
fn general_expression_document_parses() {
    let root = doc(vec![el(
        "action",
        &[("label", "top")],
        "",
        vec![el("wait", &[], "1+rank*2", vec![], 2)],
        1,
    )]);
    let res = BulletYAMLParser::new().parse(&root);
    assert!(res.is_ok(), "a grammar-accepted expression must compile while the pool has room");
}
