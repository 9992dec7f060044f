use lowering::builder::Builder;
use lowering::config::Config;
use lowering::expression::Expression;
use lowering::node::Node;
use lowering::source::SourceSet;
use lowering::variable::{Mutability, Scope};

fn test_config() -> Config {
    Config::new(
        vec!["src".to_string()],
        "::".to_string(),
        ".mod".to_string(),
    )
}

#[test]
fn identifier_prefers_the_local_over_the_global() {
    let mut builder = Builder::new(test_config());
    let sources = SourceSet::new();
    let path = "src/main.mod".to_string();
    let mut locals = Scope::new();
    let mut globals = Scope::new();

    // Bound in both scopes, in either declaration order.
    globals.define("x".to_string(), Mutability::Immutable);
    let local = locals.define("x".to_string(), Mutability::Immutable);

    let expr = builder.identifier(
        &"x".to_string(),
        1,
        1,
        &path,
        &mut locals,
        &mut globals,
        &sources,
    );
    match expr {
        Expression::GetLocal { variable, .. } => {
            assert_eq!(variable.name, "x");
            assert_eq!(variable.index, local.index);
        }
        other => panic!("expected GetLocal, got {:?}", other),
    }
}

#[test]
fn identifier_resolves_the_global_without_a_local() {
    let mut builder = Builder::new(test_config());
    let sources = SourceSet::new();
    let path = "src/main.mod".to_string();
    let mut locals = Scope::new();
    let mut globals = Scope::new();

    let global = globals.define("g".to_string(), Mutability::Immutable);

    let expr = builder.identifier(
        &"g".to_string(),
        1,
        1,
        &path,
        &mut locals,
        &mut globals,
        &sources,
    );
    match expr {
        Expression::GetGlobal { variable, .. } => assert_eq!(variable.index, global.index),
        other => panic!("expected GetGlobal, got {:?}", other),
    }
}

#[test]
fn identifier_falls_back_to_an_implicit_zero_argument_send() {
    let mut builder = Builder::new(test_config());
    let sources = SourceSet::new();
    let path = "src/main.mod".to_string();
    let mut locals = Scope::new();
    let mut globals = Scope::new();

    let expr = builder.identifier(
        &"free".to_string(),
        4,
        2,
        &path,
        &mut locals,
        &mut globals,
        &sources,
    );
    match expr {
        Expression::SendObjectMessage { name, arguments, line, column } => {
            assert_eq!(name, "free");
            assert_eq!(arguments.len(), 1);
            assert!(matches!(arguments[0], Expression::GetSelf { line: 4, column: 2 }));
            assert_eq!(line, 4);
            assert_eq!(column, 2);
        }
        other => panic!("expected SendObjectMessage, got {:?}", other),
    }
    assert_eq!(builder.diagnostics.len(), 0);
}

#[test]
fn send_with_an_implicit_receiver_passes_self_first() {
    let mut builder = Builder::new(test_config());
    let sources = SourceSet::new();
    let path = "src/main.mod".to_string();
    let mut locals = Scope::new();
    let mut globals = Scope::new();

    let expr = builder.send_object_message(
        "message".to_string(),
        &None,
        &vec![Node::Integer { value: 9, line: 1, column: 9 }],
        1,
        1,
        &path,
        &mut locals,
        &mut globals,
        &sources,
    );
    match expr {
        Expression::SendObjectMessage { arguments, .. } => {
            assert_eq!(arguments.len(), 2);
            assert!(matches!(arguments[0], Expression::GetSelf { .. }));
            assert!(matches!(arguments[1], Expression::Integer { value: 9, .. }));
        }
        other => panic!("expected SendObjectMessage, got {:?}", other),
    }
}

#[test]
fn set_variable_on_an_identifier_defines_a_local() {
    let mut builder = Builder::new(test_config());
    let sources = SourceSet::new();
    let path = "src/main.mod".to_string();
    let mut locals = Scope::new();
    let mut globals = Scope::new();

    let expr = builder.set_variable(
        &Node::Identifier { name: "count".to_string(), line: 1, column: 1 },
        &Node::Integer { value: 3, line: 1, column: 9 },
        Mutability::Mutable,
        1,
        1,
        &path,
        &mut locals,
        &mut globals,
        &sources,
    );
    match expr {
        Expression::SetLocal { variable, .. } => {
            assert_eq!(variable.name, "count");
            assert_eq!(variable.mutability, Mutability::Mutable);
        }
        other => panic!("expected SetLocal, got {:?}", other),
    }
    let found = locals.lookup(&"count".to_string()).unwrap();
    assert_eq!(found.mutability, Mutability::Mutable);
}
