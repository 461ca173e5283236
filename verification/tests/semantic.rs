use mini_c::ast::{BinaryOp, Block, Expr, Function, Program, Stmt, Type};
use mini_c::semantic::{analyze, SemanticError};

fn func(name: &str, ret: Type, params: Vec<(Type, &str)>, stmts: Vec<Stmt>) -> Function {
    Function {
        name: name.to_string(),
        return_type: ret,
        params: params.into_iter().map(|(t, n)| (t, n.to_string())).collect(),
        body: Block { stmts },
    }
}

fn ident(name: &str) -> Expr {
    Expr::Ident(name.to_string())
}

fn var_decl(ty: Type, name: &str, value: Expr) -> Stmt {
    Stmt::VarDecl {
        ty,
        name: name.to_string(),
        value,
    }
}

fn add(left: Expr, right: Expr) -> Expr {
    Expr::Binary {
        op: BinaryOp::Add,
        left: Box::new(left),
        right: Box::new(right),
    }
}

#[test]
fn valid_program_passes() {
    let program = Program {
        functions: vec![func(
            "add",
            Type::Int,
            vec![(Type::Int, "a"), (Type::Int, "b")],
            vec![
                var_decl(Type::Int, "c", add(ident("a"), ident("b"))),
                Stmt::Return(ident("c")),
            ],
        )],
    };
    assert!(analyze(&program).is_ok());
}

#[test]
fn forward_reference_resolves() {
    let program = Program {
        functions: vec![
            func(
                "caller",
                Type::Int,
                vec![],
                vec![Stmt::Return(Expr::Call {
                    name: "callee".to_string(),
                    args: vec![Expr::Number(1)],
                })],
            ),
            func("callee", Type::Int, vec![(Type::Int, "x")], vec![Stmt::Return(ident("x"))]),
        ],
    };
    assert!(analyze(&program).is_ok());
}

#[test]
fn duplicate_parameter_reported_exactly_once() {
    let program = Program {
        functions: vec![func(
            "f",
            Type::Void,
            vec![(Type::Int, "a"), (Type::Int, "a")],
            vec![],
        )],
    };
    let errs = analyze(&program).unwrap_err();
    let dups: Vec<_> = errs
        .iter()
        .filter(|e| matches!(e, SemanticError::DuplicateParam { func, name } if func == "f" && name == "a"))
        .collect();
    assert_eq!(dups.len(), 1);
    assert_eq!(errs.len(), 1);
}

#[test]
fn wrong_argument_count_reported_exactly_once() {
    let program = Program {
        functions: vec![
            func(
                "g",
                Type::Int,
                vec![(Type::Int, "a"), (Type::Int, "b")],
                vec![Stmt::Return(ident("a"))],
            ),
            func(
                "main",
                Type::Void,
                vec![],
                vec![Stmt::ExprStmt(Expr::Call {
                    name: "g".to_string(),
                    args: vec![Expr::Number(7)],
                })],
            ),
        ],
    };
    let errs = analyze(&program).unwrap_err();
    assert_eq!(errs.len(), 1);
    match &errs[0] {
        SemanticError::WrongArgCount {
            func,
            name,
            expected,
            found,
        } => {
            assert_eq!(func, "main");
            assert_eq!(name, "g");
            assert_eq!(*expected, 2);
            assert_eq!(*found, 1);
        }
        other => panic!("expected WrongArgCount, got {:?}", other),
    }
}

#[test]
fn call_to_unknown_name_passes_without_arity_check() {
    let program = Program {
        functions: vec![func(
            "main",
            Type::Void,
            vec![],
            vec![Stmt::ExprStmt(Expr::Call {
                name: "printf".to_string(),
                args: vec![Expr::StringLiteral("hi".to_string())],
            })],
        )],
    };
    assert!(analyze(&program).is_ok());
}

#[test]
fn return_type_mismatch_reported_exactly_once() {
    let program = Program {
        functions: vec![func(
            "f",
            Type::Int,
            vec![],
            vec![Stmt::Return(Expr::FloatNumber("1.5".to_string()))],
        )],
    };
    let errs = analyze(&program).unwrap_err();
    assert_eq!(errs.len(), 1);
    match &errs[0] {
        SemanticError::ReturnTypeMismatch {
            func,
            expected,
            found,
        } => {
            assert_eq!(func, "f");
            assert_eq!(*expected, Type::Int);
            assert_eq!(*found, Type::Float);
        }
        other => panic!("expected ReturnTypeMismatch, got {:?}", other),
    }
}

#[test]
fn duplicate_function_reported() {
    let program = Program {
        functions: vec![
            func("f", Type::Void, vec![], vec![]),
            func("f", Type::Int, vec![], vec![]),
        ],
    };
    let errs = analyze(&program).unwrap_err();
    assert_eq!(errs.len(), 1);
    assert!(matches!(&errs[0], SemanticError::DuplicateFunction { name } if name == "f"));
}

#[test]
fn duplicate_variable_reported() {
    let program = Program {
        functions: vec![func(
            "f",
            Type::Void,
            vec![],
            vec![
                var_decl(Type::Int, "x", Expr::Number(1)),
                var_decl(Type::Int, "x", Expr::Number(2)),
            ],
        )],
    };
    let errs = analyze(&program).unwrap_err();
    assert_eq!(errs.len(), 1);
    assert!(
        matches!(&errs[0], SemanticError::DuplicateVariable { func, name } if func == "f" && name == "x")
    );
}

#[test]
fn undeclared_variable_reported() {
    let program = Program {
        functions: vec![func("f", Type::Void, vec![], vec![Stmt::ExprStmt(ident("ghostvar"))])],
    };
    let errs = analyze(&program).unwrap_err();
    assert_eq!(errs.len(), 1);
    assert!(
        matches!(&errs[0], SemanticError::UndeclaredVariable { func, name } if func == "f" && name == "ghostvar")
    );
}

#[test]
fn initializer_type_mismatch_reported() {
    let program = Program {
        functions: vec![func(
            "f",
            Type::Void,
            vec![],
            vec![var_decl(Type::Int, "x", Expr::FloatNumber("2.5".to_string()))],
        )],
    };
    let errs = analyze(&program).unwrap_err();
    assert_eq!(errs.len(), 1);
    match &errs[0] {
        SemanticError::TypeMismatch {
            func,
            expected,
            found,
        } => {
            assert_eq!(func, "f");
            assert_eq!(*expected, Type::Int);
            assert_eq!(*found, Type::Float);
        }
        other => panic!("expected TypeMismatch, got {:?}", other),
    }
}

#[test]
fn diagnostics_accumulate_across_functions() {
    let program = Program {
        functions: vec![
            func("f", Type::Void, vec![], vec![Stmt::ExprStmt(ident("a"))]),
            func("g", Type::Void, vec![], vec![Stmt::ExprStmt(ident("b"))]),
        ],
    };
    let errs = analyze(&program).unwrap_err();
    assert_eq!(errs.len(), 2);
    assert!(
        matches!(&errs[0], SemanticError::UndeclaredVariable { func, name } if func == "f" && name == "a")
    );
    assert!(
        matches!(&errs[1], SemanticError::UndeclaredVariable { func, name } if func == "g" && name == "b")
    );
}

#[test]
fn parameter_usable_in_body() {
    let program = Program {
        functions: vec![func(
            "id",
            Type::Int,
            vec![(Type::Int, "x")],
            vec![Stmt::Return(ident("x"))],
        )],
    };
    assert!(analyze(&program).is_ok());
}

#[test]
fn assignment_target_must_resolve() {
    let program = Program {
        functions: vec![func(
            "f",
            Type::Void,
            vec![],
            vec![Stmt::ExprStmt(Expr::Assign {
                name: "y".to_string(),
                value: Box::new(Expr::Number(3)),
            })],
        )],
    };
    let errs = analyze(&program).unwrap_err();
    assert_eq!(errs.len(), 1);
    assert!(
        matches!(&errs[0], SemanticError::UndeclaredVariable { func, name } if func == "f" && name == "y")
    );
}

#[test]
fn error_messages_render() {
    let wrong = SemanticError::WrongArgCount {
        func: "main".to_string(),
        name: "g".to_string(),
        expected: 2,
        found: 1,
    };
    assert_eq!(
        wrong.to_text(),
        "Wrong argument count for call to 'g' in function 'main': expected 2, found 1."
    );
    let ret = SemanticError::ReturnTypeMismatch {
        func: "f".to_string(),
        expected: Type::Int,
        found: Type::Float,
    };
    assert_eq!(
        ret.to_text(),
        "Return type mismatch in function 'f': expected Int, found Float."
    );
    let dup = SemanticError::DuplicateParam {
        func: "f".to_string(),
        name: "a".to_string(),
    };
    assert_eq!(dup.to_text(), "Duplicate parameter 'a' in function 'f'.");
    let dupf = SemanticError::DuplicateFunction {
        name: "f".to_string(),
    };
    assert_eq!(dupf.to_text(), "Duplicate function 'f'.");
    let undecl = SemanticError::UndeclaredVariable {
        func: "f".to_string(),
        name: "x".to_string(),
    };
    assert_eq!(undecl.to_text(), "Undeclared variable 'x' in function 'f'.");
    let dupv = SemanticError::DuplicateVariable {
        func: "f".to_string(),
        name: "x".to_string(),
    };
    assert_eq!(dupv.to_text(), "Duplicate variable 'x' in function 'f'.");
    let tym = SemanticError::TypeMismatch {
        func: "f".to_string(),
        expected: Type::Char,
        found: Type::Void,
    };
    assert_eq!(tym.to_text(), "Type mismatch in function 'f': expected Char, found Void.");
}
