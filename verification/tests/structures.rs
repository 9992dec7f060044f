use lowering::builder::Builder;
use lowering::config::Config;
use lowering::expression::Expression;
use lowering::node::Node;
use lowering::source::{ParseOutcome, SourceSet};
use lowering::text::{file_stem, join_chunks, path_join, replace_all};
use lowering::variable::Mutability;

fn test_config() -> Config {
    Config::new(
        vec!["src".to_string()],
        "::".to_string(),
        ".mod".to_string(),
    )
}

fn ident(name: &str, line: usize, column: usize) -> Node {
    Node::Identifier { name: name.to_string(), line, column }
}

fn integer(value: i64, line: usize, column: usize) -> Node {
    Node::Integer { value, line, column }
}

fn arg(name: &str, line: usize, column: usize) -> Node {
    Node::ArgumentDefine { name: name.to_string(), default: None, rest: false, line, column }
}

fn build_main(nodes: Vec<Node>) -> (Builder, lowering::module::Module) {
    let mut sources = SourceSet::new();
    sources.add(
        "src/main.mod".to_string(),
        ParseOutcome::Ast(Node::Expressions { nodes }),
    );
    let mut builder = Builder::new(test_config());
    let module = builder.build("src/main.mod".to_string(), &sources).unwrap();
    (builder, module)
}

#[test]
fn closures_start_from_an_empty_local_scope() {
    // An outer local is not visible inside a closure body: the identifier
    // falls through to an implicit message send.
    let (_, module) = build_main(vec![
        Node::LetDefine {
            name: Box::new(ident("x", 1, 1)),
            value: Box::new(integer(1, 1, 5)),
            line: 1,
            column: 1,
        },
        Node::Closure {
            arguments: vec![],
            body: Box::new(Node::Expressions { nodes: vec![ident("x", 2, 10)] }),
            line: 2,
            column: 1,
        },
    ]);

    match &module.code.body[1] {
        Expression::Closure { arguments, body, .. } => {
            assert_eq!(arguments.len(), 0);
            assert_eq!(body.locals.slot_count(), 0);
            match &body.body[0] {
                Expression::SendObjectMessage { name, arguments, .. } => {
                    assert_eq!(name, "x");
                    assert_eq!(arguments.len(), 1);
                }
                other => panic!("expected SendObjectMessage, got {:?}", other),
            }
        }
        other => panic!("expected Closure, got {:?}", other),
    }
}

#[test]
fn method_parameters_shadow_globals_in_the_body() {
    let (_, module) = build_main(vec![Node::Method {
        name: "add".to_string(),
        receiver: None,
        arguments: vec![arg("a", 1, 9), arg("b", 1, 12)],
        body: Some(Box::new(Node::Expressions { nodes: vec![ident("a", 2, 3)] })),
        requirements: vec![],
        line: 1,
        column: 1,
    }]);

    match &module.code.body[0] {
        Expression::Method { name, receiver, arguments, body, requirements, .. } => {
            assert_eq!(name, "add");
            assert!(receiver.is_none());
            assert_eq!(arguments.len(), 2);
            assert_eq!(arguments[0].name, "a");
            assert_eq!(arguments[1].name, "b");
            assert_eq!(requirements.len(), 0);
            // Parameters are pre-populated as immutable locals.
            let a = body.locals.lookup(&"a".to_string()).unwrap();
            assert_eq!(a.index, 0);
            assert_eq!(a.mutability, Mutability::Immutable);
            // The body resolves the parameter as a local.
            assert!(matches!(body.body[0], Expression::GetLocal { .. }));
        }
        other => panic!("expected Method, got {:?}", other),
    }
}

#[test]
fn a_method_without_a_body_is_a_required_method() {
    let (builder, module) = build_main(vec![Node::Method {
        name: "required".to_string(),
        receiver: None,
        arguments: vec![arg("a", 1, 14)],
        body: None,
        requirements: vec![],
        line: 1,
        column: 1,
    }]);

    assert_eq!(builder.diagnostics.len(), 0);
    match &module.code.body[0] {
        Expression::RequiredMethod { name, arguments, .. } => {
            assert_eq!(name, "required");
            assert_eq!(arguments.len(), 1);
        }
        other => panic!("expected RequiredMethod, got {:?}", other),
    }
}

#[test]
fn a_required_method_with_a_receiver_is_diagnosed() {
    let (builder, module) = build_main(vec![Node::Method {
        name: "required".to_string(),
        receiver: Some(Box::new(ident("obj", 1, 1))),
        arguments: vec![],
        body: None,
        requirements: vec![],
        line: 3,
        column: 5,
    }]);

    assert_eq!(builder.diagnostics.len(), 1);
    let record = builder.diagnostics.get(0);
    assert_eq!(
        record.message,
        "methods required by a trait can not be defined on an explicit receiver"
    );
    assert_eq!(record.line, 3);
    assert_eq!(record.column, 5);
    assert!(matches!(module.code.body[0], Expression::RequiredMethod { .. }));
}

#[test]
fn classes_lower_their_traits_and_renames() {
    let (_, module) = build_main(vec![Node::Class {
        name: "List".to_string(),
        implements: vec![Node::Implement {
            name: Box::new(Node::Constant {
                receiver: None,
                name: "Enumerable".to_string(),
                line: 1,
                column: 20,
            }),
            renames: vec![(ident("each", 1, 32), ident("iterate", 1, 40))],
            line: 1,
            column: 20,
        }],
        body: Box::new(Node::Expressions { nodes: vec![] }),
        line: 1,
        column: 1,
    }]);

    match &module.code.body[0] {
        Expression::Class { name, implements, .. } => {
            assert_eq!(name, "List");
            assert_eq!(implements.len(), 1);
            let entry = &implements[0];
            assert!(matches!(entry.name, Expression::GetAttribute { .. }));
            assert_eq!(entry.renames.len(), 1);
            assert_eq!(entry.renames[0].name, "each");
            assert_eq!(entry.renames[0].alias, "iterate");
        }
        other => panic!("expected Class, got {:?}", other),
    }
}

#[test]
fn traits_lower_their_bodies() {
    let (_, module) = build_main(vec![Node::Trait {
        name: "Enumerable".to_string(),
        body: Box::new(Node::Expressions { nodes: vec![integer(1, 2, 3)] }),
        line: 1,
        column: 1,
    }]);

    match &module.code.body[0] {
        Expression::Trait { name, body, .. } => {
            assert_eq!(name, "Enumerable");
            assert_eq!(body.body.len(), 1);
        }
        other => panic!("expected Trait, got {:?}", other),
    }
}

#[test]
fn try_with_else_binds_the_error_capture() {
    let (_, module) = build_main(vec![Node::Try {
        body: Box::new(Node::Expressions { nodes: vec![integer(1, 1, 5)] }),
        else_body: Some(Box::new(Node::Expressions { nodes: vec![ident("err", 2, 3)] })),
        else_argument: Some(Box::new(ident("err", 1, 12))),
        line: 1,
        column: 1,
    }]);

    match &module.code.body[0] {
        Expression::Try { body, else_body, else_argument, .. } => {
            assert_eq!(body.body.len(), 1);
            let else_co = else_body.as_ref().unwrap();
            let captured = else_argument.as_ref().unwrap();
            assert_eq!(captured.name, "err");
            assert_eq!(captured.index, 0);
            assert_eq!(captured.mutability, Mutability::Immutable);
            // The capture is visible inside the else body.
            assert!(matches!(else_co.body[0], Expression::GetLocal { .. }));
        }
        other => panic!("expected Try, got {:?}", other),
    }
}

#[test]
fn try_without_else_has_no_else_parts() {
    let (_, module) = build_main(vec![Node::Try {
        body: Box::new(Node::Expressions { nodes: vec![] }),
        else_body: None,
        else_argument: None,
        line: 1,
        column: 1,
    }]);

    match &module.code.body[0] {
        Expression::Try { else_body, else_argument, .. } => {
            assert!(else_body.is_none());
            assert!(else_argument.is_none());
        }
        other => panic!("expected Try, got {:?}", other),
    }
}

#[test]
fn keyword_arguments_wrap_their_values() {
    let (_, module) = build_main(vec![Node::KeywordArgument {
        name: "count".to_string(),
        value: Box::new(integer(3, 1, 10)),
        line: 1,
        column: 1,
    }]);

    match &module.code.body[0] {
        Expression::KeywordArgument { name, value, .. } => {
            assert_eq!(name, "count");
            assert!(matches!(**value, Expression::Integer { value: 3, .. }));
        }
        other => panic!("expected KeywordArgument, got {:?}", other),
    }
}

#[test]
fn join_chunks_puts_the_separator_between_neighbours() {
    let chunks = vec!["std".to_string(), "fs".to_string(), "path".to_string()];
    assert_eq!(join_chunks(&chunks, &"::".to_string()), "std::fs::path");
    assert_eq!(join_chunks(&vec!["one".to_string()], &"::".to_string()), "one");
    assert_eq!(join_chunks(&vec![], &"::".to_string()), "");
}

#[test]
fn replace_all_rewrites_each_occurrence() {
    assert_eq!(replace_all("std::fs::path", "::", "/"), "std/fs/path");
    assert_eq!(replace_all("plain", "::", "/"), "plain");
    assert_eq!(replace_all("", "::", "/"), "");
    assert_eq!(replace_all("aaa", "aa", "b"), "ba");
}

#[test]
fn file_stem_cuts_directories_and_extension() {
    assert_eq!(file_stem("src/foo/bar.mod"), "bar");
    assert_eq!(file_stem("bar.mod"), "bar");
    assert_eq!(file_stem("bar"), "bar");
    assert_eq!(file_stem("src/archive.tar.gz"), "archive");
}

#[test]
fn path_join_inserts_one_separator() {
    assert_eq!(path_join(&"src".to_string(), &"foo.mod".to_string()), "src/foo.mod");
    assert_eq!(path_join(&"src/".to_string(), &"foo.mod".to_string()), "src/foo.mod");
    assert_eq!(path_join(&"".to_string(), &"foo.mod".to_string()), "foo.mod");
}
