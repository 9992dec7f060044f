use lowering::diagnostics::Diagnostics;
use lowering::module::Module;
use lowering::registry::{ModuleState, Registry};
use lowering::variable::{Mutability, Scope};

#[test]
fn define_assigns_slots_in_order() {
    let mut scope = Scope::new();

    let a = scope.define("a".to_string(), Mutability::Immutable);
    let b = scope.define("b".to_string(), Mutability::Mutable);

    assert_eq!(a.index, 0);
    assert_eq!(b.index, 1);
    assert_eq!(a.name, "a");
    assert_eq!(b.name, "b");
    assert_eq!(a.mutability, Mutability::Immutable);
    assert_eq!(b.mutability, Mutability::Mutable);
    assert_eq!(scope.slot_count(), 2);
}

#[test]
fn redefinition_yields_a_fresh_slot_and_shadows() {
    let mut scope = Scope::new();

    let first = scope.define("x".to_string(), Mutability::Immutable);
    let second = scope.define("x".to_string(), Mutability::Mutable);

    // Two distinct slots for the same name.
    assert_ne!(first.index, second.index);
    assert_eq!(first.index, 0);
    assert_eq!(second.index, 1);

    // A lookup after the second definition returns the second slot.
    let found = scope.lookup(&"x".to_string()).unwrap();
    assert_eq!(found.index, 1);
    assert_eq!(found.mutability, Mutability::Mutable);

    // The variable captured before the redefinition keeps the first slot.
    assert_eq!(first.index, 0);
    assert_eq!(first.mutability, Mutability::Immutable);
}

#[test]
fn lookup_misses_an_unbound_name() {
    let mut scope = Scope::new();
    scope.define("bound".to_string(), Mutability::Immutable);

    assert!(scope.lookup(&"unbound".to_string()).is_none());
}

#[test]
fn lookup_is_independent_of_mutability() {
    let mut scope = Scope::new();
    scope.define("m".to_string(), Mutability::Mutable);

    let found = scope.lookup(&"m".to_string()).unwrap();
    assert_eq!(found.mutability, Mutability::Mutable);
}

#[test]
fn diagnostics_append_in_order() {
    let mut diagnostics = Diagnostics::new();
    assert_eq!(diagnostics.len(), 0);

    diagnostics.error(&"a.mod".to_string(), "first".to_string(), 1, 2);
    diagnostics.error(&"b.mod".to_string(), "second".to_string(), 3, 4);

    assert_eq!(diagnostics.len(), 2);
    let first = diagnostics.get(0);
    assert_eq!(first.path, "a.mod");
    assert_eq!(first.message, "first");
    assert_eq!(first.line, 1);
    assert_eq!(first.column, 2);
    let second = diagnostics.get(1);
    assert_eq!(second.message, "second");
}

#[test]
fn registry_states_move_from_pending_to_final() {
    let mut registry = Registry::new();
    let name = "foo".to_string();

    assert!(!registry.contains(&name));
    assert!(registry.get(&name).is_none());
    assert!(!registry.is_resolved(&name));

    registry.insert(name.clone(), ModuleState::Pending);
    assert!(registry.contains(&name));
    assert!(matches!(registry.get(&name), Some(ModuleState::Pending)));
    assert!(!registry.is_resolved(&name));

    registry.insert(name.clone(), ModuleState::Failed);
    assert!(matches!(registry.get(&name), Some(ModuleState::Failed)));
    assert!(!registry.is_resolved(&name));

    let module = Module {
        path: "src/foo.mod".to_string(),
        name: "foo".to_string(),
        code: lowering::expression::CodeObject { locals: Scope::new(), body: Vec::new() },
        globals: Scope::new(),
    };
    registry.insert(name.clone(), ModuleState::Resolved(module));
    assert!(registry.is_resolved(&name));
}
