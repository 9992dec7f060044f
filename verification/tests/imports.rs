use lowering::builder::Builder;
use lowering::config::Config;
use lowering::expression::Expression;
use lowering::node::Node;
use lowering::registry::ModuleState;
use lowering::source::{ParseOutcome, SourceSet};

fn test_config() -> Config {
    Config::new(
        vec!["src".to_string()],
        "::".to_string(),
        ".mod".to_string(),
    )
}

fn ident(name: &str, line: usize, column: usize) -> Node {
    Node::Identifier { name: name.to_string(), line, column }
}

fn program(nodes: Vec<Node>) -> ParseOutcome {
    ParseOutcome::Ast(Node::Expressions { nodes })
}

fn import_of(name: &str, line: usize, column: usize) -> Node {
    Node::Import {
        steps: vec![ident(name, line, column + 7)],
        symbols: vec![],
        line,
        column,
    }
}

#[test]
fn missing_module_lowers_to_void_with_one_diagnostic() {
    // `import foo::Bar` where no source directory has a matching file.
    let mut sources = SourceSet::new();
    sources.add(
        "src/main.mod".to_string(),
        program(vec![Node::Import {
            steps: vec![
                ident("foo", 2, 8),
                Node::Constant { receiver: None, name: "Bar".to_string(), line: 2, column: 13 },
            ],
            symbols: vec![],
            line: 2,
            column: 1,
        }]),
    );
    let mut builder = Builder::new(test_config());
    let module = builder
        .build("src/main.mod".to_string(), &sources)
        .unwrap();

    assert!(matches!(module.code.body[0], Expression::Void));
    assert_eq!(builder.diagnostics.len(), 1);
    let record = builder.diagnostics.get(0);
    assert_eq!(record.path, "src/main.mod");
    assert_eq!(record.message, "The module \"foo\" could not be found");
    assert_eq!(record.line, 2);
    assert_eq!(record.column, 1);
    assert!(matches!(
        builder.modules.get(&"foo".to_string()),
        Some(ModuleState::Failed)
    ));
}

#[test]
fn resolved_import_lowers_to_import_module() {
    let mut sources = SourceSet::new();
    sources.add("src/foo.mod".to_string(), program(vec![]));
    sources.add(
        "src/main.mod".to_string(),
        program(vec![import_of("foo", 1, 1)]),
    );
    let mut builder = Builder::new(test_config());
    let module = builder
        .build("src/main.mod".to_string(), &sources)
        .unwrap();

    assert_eq!(builder.diagnostics.len(), 0);
    match &module.code.body[0] {
        Expression::ImportModule { path, symbols, line, column } => {
            assert_eq!(path, "foo.mod");
            assert_eq!(symbols.len(), 0);
            assert_eq!(*line, 1);
            assert_eq!(*column, 1);
        }
        other => panic!("expected ImportModule, got {:?}", other),
    }
    assert!(builder.modules.is_resolved(&"foo".to_string()));
}

#[test]
fn dotted_import_names_join_with_the_separator() {
    let mut sources = SourceSet::new();
    sources.add("src/std/fs.mod".to_string(), program(vec![]));
    sources.add(
        "src/main.mod".to_string(),
        program(vec![Node::Import {
            steps: vec![ident("std", 1, 8), ident("fs", 1, 13)],
            symbols: vec![],
            line: 1,
            column: 1,
        }]),
    );
    let mut builder = Builder::new(test_config());
    let module = builder
        .build("src/main.mod".to_string(), &sources)
        .unwrap();

    assert!(matches!(module.code.body[0], Expression::ImportModule { .. }));
    assert!(builder.modules.is_resolved(&"std::fs".to_string()));
}

#[test]
fn cyclic_imports_terminate() {
    // a imports b, b imports a: building a completes, and during b's nested
    // build a's own registry entry is seen and not resolved again.
    let mut sources = SourceSet::new();
    sources.add(
        "src/a.mod".to_string(),
        program(vec![import_of("b", 1, 1)]),
    );
    sources.add(
        "src/b.mod".to_string(),
        program(vec![import_of("a", 1, 1)]),
    );
    let mut builder = Builder::new(test_config());
    let module = builder.build("src/a.mod".to_string(), &sources).unwrap();

    assert_eq!(module.name, "a");
    assert_eq!(builder.diagnostics.len(), 0);
    assert!(builder.modules.is_resolved(&"a".to_string()));
    assert!(builder.modules.is_resolved(&"b".to_string()));
}

#[test]
fn a_module_importing_itself_terminates() {
    let mut sources = SourceSet::new();
    sources.add(
        "src/selfish.mod".to_string(),
        program(vec![import_of("selfish", 1, 1)]),
    );
    let mut builder = Builder::new(test_config());
    let module = builder
        .build("src/selfish.mod".to_string(), &sources)
        .unwrap();

    assert_eq!(module.name, "selfish");
    assert!(builder.modules.contains(&"selfish".to_string()));
}

#[test]
fn importing_the_same_module_twice_resolves_it_once() {
    // Two imports of the same name: the second reuses the registry's stored
    // result, so the registry gains no further records.
    let mut sources = SourceSet::new();
    sources.add("src/foo.mod".to_string(), program(vec![]));
    sources.add(
        "src/main.mod".to_string(),
        program(vec![import_of("foo", 1, 1), import_of("foo", 2, 1)]),
    );
    let mut builder = Builder::new(test_config());
    let module = builder
        .build("src/main.mod".to_string(), &sources)
        .unwrap();

    // One pending record and one resolved record for foo; nothing more.
    assert_eq!(builder.modules.len(), 2);
    assert!(matches!(module.code.body[0], Expression::ImportModule { .. }));
    assert!(matches!(module.code.body[1], Expression::ImportModule { .. }));
    assert_eq!(builder.diagnostics.len(), 0);
}

#[test]
fn import_symbols_bind_globals_with_aliases() {
    let mut sources = SourceSet::new();
    sources.add("src/foo.mod".to_string(), program(vec![]));
    sources.add(
        "src/main.mod".to_string(),
        program(vec![Node::Import {
            steps: vec![ident("foo", 1, 8)],
            symbols: vec![
                Node::ImportSymbol {
                    symbol: Box::new(ident("bar", 1, 13)),
                    alias: Some(Box::new(ident("baz", 1, 20))),
                },
                Node::ImportSymbol {
                    symbol: Box::new(Node::Constant {
                        receiver: None,
                        name: "Widget".to_string(),
                        line: 1,
                        column: 25,
                    }),
                    alias: None,
                },
            ],
            line: 1,
            column: 1,
        }]),
    );
    let mut builder = Builder::new(test_config());
    let module = builder
        .build("src/main.mod".to_string(), &sources)
        .unwrap();

    // The aliased module symbol binds under its alias, the constant under
    // its own name; both are immutable globals.
    let baz = module.globals.lookup(&"baz".to_string()).unwrap();
    assert_eq!(baz.index, 0);
    assert!(module.globals.lookup(&"bar".to_string()).is_none());
    let widget = module.globals.lookup(&"Widget".to_string()).unwrap();
    assert_eq!(widget.index, 1);

    match &module.code.body[0] {
        Expression::ImportModule { symbols, .. } => {
            assert_eq!(symbols.len(), 2);
            match &symbols[0] {
                lowering::expression::ImportSymbol::Module { name, variable, .. } => {
                    assert_eq!(name, "bar");
                    assert_eq!(variable.name, "baz");
                }
                other => panic!("expected a module symbol, got {:?}", other),
            }
            match &symbols[1] {
                lowering::expression::ImportSymbol::Constant { name, variable, .. } => {
                    assert_eq!(name, "Widget");
                    assert_eq!(variable.name, "Widget");
                }
                other => panic!("expected a constant symbol, got {:?}", other),
            }
        }
        other => panic!("expected ImportModule, got {:?}", other),
    }
}

#[test]
fn syntax_error_fails_only_that_file() {
    let mut sources = SourceSet::new();
    sources.add(
        "src/broken.mod".to_string(),
        ParseOutcome::SyntaxError { message: "unexpected token".to_string(), line: 4, column: 7 },
    );
    sources.add(
        "src/main.mod".to_string(),
        program(vec![import_of("broken", 1, 1)]),
    );
    let mut builder = Builder::new(test_config());
    let module = builder
        .build("src/main.mod".to_string(), &sources)
        .unwrap();

    // The importing file still yields a module; the import lowers to Void.
    assert!(matches!(module.code.body[0], Expression::Void));
    assert_eq!(builder.diagnostics.len(), 1);
    let record = builder.diagnostics.get(0);
    assert_eq!(record.path, "src/broken.mod");
    assert_eq!(record.message, "unexpected token");
    assert_eq!(record.line, 4);
    assert_eq!(record.column, 7);
}

#[test]
fn read_error_reports_at_position_one_one() {
    let mut sources = SourceSet::new();
    sources.add(
        "src/main.mod".to_string(),
        ParseOutcome::ReadError { message: "permission denied".to_string() },
    );
    let mut builder = Builder::new(test_config());
    let result = builder.build("src/main.mod".to_string(), &sources);

    assert!(result.is_none());
    assert_eq!(builder.diagnostics.len(), 1);
    let record = builder.diagnostics.get(0);
    assert_eq!(record.message, "permission denied");
    assert_eq!(record.line, 1);
    assert_eq!(record.column, 1);
}

#[test]
fn a_missing_entry_path_yields_no_module() {
    let sources = SourceSet::new();
    let mut builder = Builder::new(test_config());
    let result = builder.build("src/absent.mod".to_string(), &sources);

    assert!(result.is_none());
    assert_eq!(builder.diagnostics.len(), 1);
    let record = builder.diagnostics.get(0);
    assert_eq!(record.path, "src/absent.mod");
    assert_eq!(record.message, "the file could not be opened");
    assert_eq!(record.line, 1);
    assert_eq!(record.column, 1);
}

#[test]
fn the_first_matching_directory_wins() {
    let mut sources = SourceSet::new();
    sources.add("first/foo.mod".to_string(), program(vec![]));
    sources.add("second/foo.mod".to_string(), program(vec![]));
    sources.add(
        "first/main.mod".to_string(),
        program(vec![import_of("foo", 1, 1)]),
    );
    let config = Config::new(
        vec!["first".to_string(), "second".to_string()],
        "::".to_string(),
        ".mod".to_string(),
    );
    let mut builder = Builder::new(config);
    builder
        .build("first/main.mod".to_string(), &sources)
        .unwrap();

    match builder.modules.get(&"foo".to_string()) {
        Some(ModuleState::Resolved(module)) => assert_eq!(module.path, "first/foo.mod"),
        other => panic!("expected a resolved module, got {:?}", other),
    }
}

#[test]
fn a_non_identifier_step_ends_the_module_name() {
    // Steps after the first non-identifier step contribute nothing to the
    // dotted name: only `a` is looked up.
    let mut sources = SourceSet::new();
    sources.add(
        "src/main.mod".to_string(),
        program(vec![Node::Import {
            steps: vec![
                ident("a", 1, 8),
                Node::SelfObject { line: 1, column: 11 },
                ident("b", 1, 16),
            ],
            symbols: vec![],
            line: 1,
            column: 1,
        }]),
    );
    let mut builder = Builder::new(test_config());
    builder.build("src/main.mod".to_string(), &sources).unwrap();

    assert!(builder.modules.contains(&"a".to_string()));
    assert!(!builder.modules.contains(&"a::b".to_string()));
    assert_eq!(builder.diagnostics.len(), 1);
    assert_eq!(
        builder.diagnostics.get(0).message,
        "The module \"a\" could not be found"
    );
}
