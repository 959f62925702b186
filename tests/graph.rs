use amino::graph::MessageGraph;
use amino::schema::{Field, Label, MessageSchema, WireKind};

fn holds(tag: u32, label: Label, target: usize) -> Field {
    Field {
        label,
        tag,
        kind: WireKind::Message,
        oneof: None,
        message_type: Some(target),
        amino_prefix: vec![],
    }
}

#[test]
fn nesting_and_cycles() {
    // 0 holds 1, 1 holds 2, 2 holds 1; 0 also holds a list of 0
    let schemas = vec![
        MessageSchema::new(vec![holds(1, Label::Optional, 1), holds(2, Label::Repeated, 0)], None)
            .unwrap(),
        MessageSchema::new(vec![holds(1, Label::Optional, 2)], None).unwrap(),
        MessageSchema::new(vec![holds(1, Label::Required, 1)], None).unwrap(),
    ];
    let g = MessageGraph::new(&schemas);
    assert!(g.is_nested(0, 2));
    assert!(g.is_nested(2, 1));
    assert!(!g.is_nested(1, 0));
    assert!(g.is_nested(0, 0));
    assert!(!g.is_nested(0, 3));
    assert!(g.needs_indirection(1, 2));
    assert!(!g.needs_indirection(0, 1));
    // the repeated field of 0 gives no edge, so 0 is not recursive
    assert!(!g.is_recursive(0));
    assert!(g.is_recursive(1));
    assert!(g.is_recursive(2));
    assert!(!g.is_recursive(7));
}
