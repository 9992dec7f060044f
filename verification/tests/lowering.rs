use lowering::builder::Builder;
use lowering::config::Config;
use lowering::expression::Expression;
use lowering::node::Node;
use lowering::source::{ParseOutcome, SourceSet};
use lowering::variable::Mutability;

fn test_config() -> Config {
    Config::new(
        vec!["src".to_string()],
        "::".to_string(),
        ".mod".to_string(),
    )
}

fn ident(name: &str, line: usize, column: usize) -> Node {
    Node::Identifier { name: name.to_string(), line, column }
}

fn integer(value: i64, line: usize, column: usize) -> Node {
    Node::Integer { value, line, column }
}

fn program(nodes: Vec<Node>) -> ParseOutcome {
    ParseOutcome::Ast(Node::Expressions { nodes })
}

fn build_main(nodes: Vec<Node>) -> (Builder, lowering::module::Module) {
    let mut sources = SourceSet::new();
    sources.add("src/main.mod".to_string(), program(nodes));
    let mut builder = Builder::new(test_config());
    let module = builder.build("src/main.mod".to_string(), &sources).unwrap();
    (builder, module)
}

#[test]
fn one_line_assignment_lowers_to_set_local() {
    // `x = 1` yields one immutable local named x and one SetLocal wrapping
    // the integer literal.
    let (builder, module) = build_main(vec![Node::LetDefine {
        name: Box::new(ident("x", 1, 1)),
        value: Box::new(integer(1, 1, 5)),
        line: 1,
        column: 1,
    }]);

    assert_eq!(builder.diagnostics.len(), 0);
    assert_eq!(module.name, "main");
    assert_eq!(module.path, "src/main.mod");
    assert_eq!(module.code.locals.slot_count(), 1);
    let local = module.code.locals.lookup(&"x".to_string()).unwrap();
    assert_eq!(local.name, "x");
    assert_eq!(local.index, 0);
    assert_eq!(local.mutability, Mutability::Immutable);

    assert_eq!(module.code.body.len(), 1);
    match &module.code.body[0] {
        Expression::SetLocal { variable, value, line, column } => {
            assert_eq!(variable.name, "x");
            assert_eq!(variable.index, 0);
            assert_eq!(variable.mutability, Mutability::Immutable);
            assert_eq!(*line, 1);
            assert_eq!(*column, 1);
            match &**value {
                Expression::Integer { value: v, .. } => assert_eq!(*v, 1),
                other => panic!("expected an integer literal, got {:?}", other),
            }
        }
        other => panic!("expected SetLocal, got {:?}", other),
    }
}

#[test]
fn local_shadows_global_regardless_of_order() {
    // x is bound as a global (through an import symbol) and as a local; the
    // identifier resolves to the local binding.
    let mut sources = SourceSet::new();
    sources.add("src/foo.mod".to_string(), program(vec![]));
    sources.add(
        "src/main.mod".to_string(),
        program(vec![
            Node::Import {
                steps: vec![ident("foo", 1, 8)],
                symbols: vec![Node::ImportSymbol {
                    symbol: Box::new(ident("x", 1, 13)),
                    alias: None,
                }],
                line: 1,
                column: 1,
            },
            Node::LetDefine {
                name: Box::new(ident("x", 2, 1)),
                value: Box::new(integer(1, 2, 5)),
                line: 2,
                column: 1,
            },
            ident("x", 3, 1),
        ]),
    );
    let mut builder = Builder::new(test_config());
    let module = builder
        .build("src/main.mod".to_string(), &sources)
        .unwrap();

    // The global binding exists.
    assert!(module.globals.lookup(&"x".to_string()).is_some());
    // The local binding wins.
    match &module.code.body[2] {
        Expression::GetLocal { variable, .. } => {
            assert_eq!(variable.name, "x");
            assert_eq!(variable.index, 0);
        }
        other => panic!("expected GetLocal, got {:?}", other),
    }
}

#[test]
fn global_resolves_when_no_local_exists() {
    let mut sources = SourceSet::new();
    sources.add("src/foo.mod".to_string(), program(vec![]));
    sources.add(
        "src/main.mod".to_string(),
        program(vec![
            Node::Import {
                steps: vec![ident("foo", 1, 8)],
                symbols: vec![Node::ImportSymbol {
                    symbol: Box::new(ident("g", 1, 13)),
                    alias: None,
                }],
                line: 1,
                column: 1,
            },
            ident("g", 2, 1),
        ]),
    );
    let mut builder = Builder::new(test_config());
    let module = builder
        .build("src/main.mod".to_string(), &sources)
        .unwrap();

    match &module.code.body[1] {
        Expression::GetGlobal { variable, .. } => assert_eq!(variable.name, "g"),
        other => panic!("expected GetGlobal, got {:?}", other),
    }
}

#[test]
fn unbound_identifier_falls_back_to_implicit_message() {
    // A name bound neither locally nor globally lowers to a zero-argument
    // message send on the implicit self, never a failure.
    let (builder, module) = build_main(vec![ident("unknown", 1, 1)]);

    assert_eq!(builder.diagnostics.len(), 0);
    match &module.code.body[0] {
        Expression::SendObjectMessage { name, arguments, line, column } => {
            assert_eq!(name, "unknown");
            assert_eq!(arguments.len(), 1);
            assert!(matches!(arguments[0], Expression::GetSelf { line: 1, column: 1 }));
            assert_eq!(*line, 1);
            assert_eq!(*column, 1);
        }
        other => panic!("expected SendObjectMessage, got {:?}", other),
    }
}

#[test]
fn send_prepends_the_receiver_to_the_arguments() {
    // receiver.message(a, b) passes [receiver, a, b] in that order.
    let (_, module) = build_main(vec![Node::Send {
        name: "message".to_string(),
        receiver: Some(Box::new(integer(7, 1, 1))),
        arguments: vec![integer(1, 1, 10), integer(2, 1, 13)],
        line: 1,
        column: 1,
    }]);

    match &module.code.body[0] {
        Expression::SendObjectMessage { name, arguments, .. } => {
            assert_eq!(name, "message");
            assert_eq!(arguments.len(), 3);
            assert!(matches!(arguments[0], Expression::Integer { value: 7, .. }));
            assert!(matches!(arguments[1], Expression::Integer { value: 1, .. }));
            assert!(matches!(arguments[2], Expression::Integer { value: 2, .. }));
        }
        other => panic!("expected SendObjectMessage, got {:?}", other),
    }
}

#[test]
fn mutable_constant_records_one_diagnostic_and_still_lowers() {
    let (builder, module) = build_main(vec![Node::VarDefine {
        name: Box::new(Node::Constant {
            receiver: None,
            name: "LIMIT".to_string(),
            line: 1,
            column: 1,
        }),
        value: Box::new(integer(10, 1, 9)),
        line: 1,
        column: 1,
    }]);

    assert_eq!(builder.diagnostics.len(), 1);
    let record = builder.diagnostics.get(0);
    assert_eq!(record.path, "src/main.mod");
    assert_eq!(record.message, "constants can not be declared as mutable");
    assert_eq!(record.line, 1);
    assert_eq!(record.column, 1);

    match &module.code.body[0] {
        Expression::SetAttribute { receiver, name, .. } => {
            assert_eq!(name, "LIMIT");
            assert!(matches!(**receiver, Expression::GetSelf { .. }));
        }
        other => panic!("expected SetAttribute, got {:?}", other),
    }
}

#[test]
fn immutable_constant_records_no_diagnostic() {
    let (builder, module) = build_main(vec![Node::LetDefine {
        name: Box::new(Node::Constant {
            receiver: None,
            name: "LIMIT".to_string(),
            line: 1,
            column: 1,
        }),
        value: Box::new(integer(10, 1, 9)),
        line: 1,
        column: 1,
    }]);

    assert_eq!(builder.diagnostics.len(), 0);
    assert!(matches!(module.code.body[0], Expression::SetAttribute { .. }));
}

#[test]
fn literals_keep_their_values_and_positions() {
    let (_, module) = build_main(vec![
        integer(42, 1, 1),
        Node::Float { bits: 4614253070214989087, line: 2, column: 1 },
        Node::Str { value: "hello".to_string(), line: 3, column: 1 },
        Node::SelfObject { line: 4, column: 1 },
    ]);

    assert!(matches!(
        module.code.body[0],
        Expression::Integer { value: 42, line: 1, column: 1 }
    ));
    assert!(matches!(
        module.code.body[1],
        Expression::Float { bits: 4614253070214989087, line: 2, column: 1 }
    ));
    match &module.code.body[2] {
        Expression::Str { value, .. } => assert_eq!(value, "hello"),
        other => panic!("expected a string literal, got {:?}", other),
    }
    assert!(matches!(module.code.body[3], Expression::GetSelf { line: 4, column: 1 }));
}

#[test]
fn arrays_and_hashes_preserve_order() {
    let (_, module) = build_main(vec![
        Node::Array {
            values: vec![integer(1, 1, 2), integer(2, 1, 5)],
            line: 1,
            column: 1,
        },
        Node::Hash {
            pairs: vec![(integer(1, 2, 2), integer(10, 2, 5))],
            line: 2,
            column: 1,
        },
    ]);

    match &module.code.body[0] {
        Expression::Array { values, .. } => {
            assert_eq!(values.len(), 2);
            assert!(matches!(values[0], Expression::Integer { value: 1, .. }));
            assert!(matches!(values[1], Expression::Integer { value: 2, .. }));
        }
        other => panic!("expected Array, got {:?}", other),
    }
    match &module.code.body[1] {
        Expression::Hash { pairs, .. } => {
            assert_eq!(pairs.len(), 1);
            assert!(matches!(pairs[0].0, Expression::Integer { value: 1, .. }));
            assert!(matches!(pairs[0].1, Expression::Integer { value: 10, .. }));
        }
        other => panic!("expected Hash, got {:?}", other),
    }
}

#[test]
fn attribute_reads_and_unsupported_nodes() {
    let (_, module) = build_main(vec![
        Node::Attribute { name: "attr".to_string(), line: 1, column: 1 },
        // A bare expressions node in expression position is unsupported and
        // lowers to the no-op placeholder.
        Node::Expressions { nodes: vec![] },
    ]);

    match &module.code.body[0] {
        Expression::GetAttribute { receiver, name, .. } => {
            assert_eq!(name, "attr");
            assert!(matches!(**receiver, Expression::GetSelf { .. }));
        }
        other => panic!("expected GetAttribute, got {:?}", other),
    }
    assert!(matches!(module.code.body[1], Expression::Void));
}

#[test]
fn return_defaults_to_nil() {
    let (_, module) = build_main(vec![Node::Return { value: None, line: 3, column: 9 }]);

    match &module.code.body[0] {
        Expression::Return { value, line, column } => {
            assert!(matches!(**value, Expression::Nil { line: 3, column: 9 }));
            assert_eq!(*line, 3);
            assert_eq!(*column, 9);
        }
        other => panic!("expected Return, got {:?}", other),
    }
}

#[test]
fn type_annotations_are_discarded() {
    let (_, module) = build_main(vec![
        Node::Type {
            constant: Box::new(Node::Constant {
                receiver: None,
                name: "Integer".to_string(),
                line: 1,
                column: 1,
            }),
            line: 1,
            column: 1,
        },
        Node::TypeCast { value: Box::new(integer(3, 2, 1)), line: 2, column: 1 },
    ]);

    assert!(matches!(module.code.body[0], Expression::GetAttribute { .. }));
    assert!(matches!(module.code.body[1], Expression::Integer { value: 3, .. }));
}
