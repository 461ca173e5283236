use mini_c::ast::Type;
use mini_c::symbol::{FunctionSig, Symbol, SymbolTable};

#[test]
fn global_function_declaration_and_lookup() {
    let mut table = SymbolTable::new();
    let sig = FunctionSig {
        name: "add".to_string(),
        return_type: Type::Int,
        params_types: vec![Type::Int, Type::Int],
    };
    assert!(table.declare_global_function(sig).is_ok());
    let found = table.find_global_function("add").expect("add should resolve");
    assert_eq!(found.name, "add");
    assert_eq!(found.return_type, Type::Int);
    assert_eq!(found.params_types, vec![Type::Int, Type::Int]);
    assert!(table.find_global_function("missing").is_none());
}

#[test]
fn duplicate_global_function_rejected() {
    let mut table = SymbolTable::new();
    let sig = FunctionSig {
        name: "f".to_string(),
        return_type: Type::Void,
        params_types: vec![],
    };
    assert!(table.declare_global_function(sig).is_ok());
    let again = FunctionSig {
        name: "f".to_string(),
        return_type: Type::Int,
        params_types: vec![Type::Char],
    };
    let err = table.declare_global_function(again).unwrap_err();
    assert_eq!(err, "duplicate function: f");
}

#[test]
fn duplicate_local_in_same_scope_rejected() {
    let mut table = SymbolTable::new();
    table.enter_scope();
    assert!(table.declare_local_var("x", Type::Int).is_ok());
    let err = table.declare_local_var("x", Type::Float).unwrap_err();
    assert_eq!(err, "duplicate local: x");
}

#[test]
fn duplicate_param_in_same_scope_rejected() {
    let mut table = SymbolTable::new();
    table.enter_scope();
    assert!(table.declare_param("a", Type::Int).is_ok());
    let err = table.declare_param("a", Type::Int).unwrap_err();
    assert_eq!(err, "duplicate param: a");
}

#[test]
fn lookup_finds_innermost_shadowing_declaration() {
    let mut table = SymbolTable::new();
    table.enter_scope();
    assert!(table.declare_local_var("x", Type::Int).is_ok());
    table.enter_scope();
    assert!(table.declare_local_var("x", Type::Float).is_ok());
    match table.lookup("x") {
        Some(Symbol::Variable { ty, .. }) => assert_eq!(*ty, Type::Float),
        other => panic!("expected inner variable, got {:?}", other),
    }
    table.leave_scope();
    match table.lookup("x") {
        Some(Symbol::Variable { ty, .. }) => assert_eq!(*ty, Type::Int),
        other => panic!("expected outer variable, got {:?}", other),
    }
}

#[test]
fn same_name_allowed_in_different_scopes() {
    let mut table = SymbolTable::new();
    table.enter_scope();
    assert!(table.declare_local_var("n", Type::Int).is_ok());
    table.enter_scope();
    assert!(table.declare_local_var("n", Type::Char).is_ok());
}

#[test]
fn lookup_walks_up_to_global_scope() {
    let mut table = SymbolTable::new();
    let sig = FunctionSig {
        name: "g".to_string(),
        return_type: Type::Void,
        params_types: vec![],
    };
    assert!(table.declare_global_function(sig).is_ok());
    table.enter_scope();
    table.enter_scope();
    match table.lookup("g") {
        Some(Symbol::Function(sig)) => assert_eq!(sig.name, "g"),
        other => panic!("expected global function, got {:?}", other),
    }
    assert!(table.lookup("nowhere").is_none());
}

#[test]
fn leave_scope_at_global_is_noop() {
    let mut table = SymbolTable::new();
    table.leave_scope();
    assert!(table.declare_local_var("x", Type::Int).is_ok());
    assert!(table.lookup("x").is_some());
}
