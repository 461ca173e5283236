use mini_c::ast::{BinaryOp, Block, Expr, Function, Program, Stmt, Type, UnaryOp};
use mini_c::codegen_tac;
use mini_c::ir::{Instr, Operand};
use mini_c::lower::lower_program;

fn add_function() -> Function {
    // int add(int a, int b) { int c = a + b; return c; }
    Function {
        name: "add".to_string(),
        return_type: Type::Int,
        params: vec![(Type::Int, "a".to_string()), (Type::Int, "b".to_string())],
        body: Block {
            stmts: vec![
                Stmt::VarDecl {
                    ty: Type::Int,
                    name: "c".to_string(),
                    value: Expr::Binary {
                        op: BinaryOp::Add,
                        left: Box::new(Expr::Ident("a".to_string())),
                        right: Box::new(Expr::Ident("b".to_string())),
                    },
                },
                Stmt::Return(Expr::Ident("c".to_string())),
            ],
        },
    }
}

#[test]
fn round_trip_add_function() {
    let program = Program {
        functions: vec![add_function()],
    };
    let units = lower_program(&program);
    assert_eq!(units.len(), 1);
    let unit = &units[0];
    assert_eq!(unit.name, "add");
    assert_eq!(unit.params, vec!["a".to_string(), "b".to_string()]);
    assert_eq!(unit.instrs.len(), 3);
    match &unit.instrs[0] {
        Instr::BinOp {
            dest,
            op,
            left,
            right,
        } => {
            assert_eq!(dest, "t0");
            assert_eq!(op, "+");
            assert!(matches!(left, Operand::Local(n) if n == "a"));
            assert!(matches!(right, Operand::Local(n) if n == "b"));
        }
        other => panic!("expected BinOp first, got {:?}", other),
    }
    match &unit.instrs[1] {
        Instr::StoreLocal { name, src } => {
            assert_eq!(name, "c");
            assert!(matches!(src, Operand::Temp(t) if t == "t0"));
        }
        other => panic!("expected StoreLocal second, got {:?}", other),
    }
    match &unit.instrs[2] {
        Instr::Return { src } => {
            assert!(matches!(src, Some(Operand::Local(n)) if n == "c"));
        }
        other => panic!("expected Return third, got {:?}", other),
    }

    let tac = codegen_tac::emit_function(unit);
    assert_eq!(tac, ".func add(a, b)\n{\n  t0 = %a + %b\n  MOV %c, t0\n  RET %c\n}\n");
    let body_lines: Vec<&str> = tac
        .lines()
        .filter(|l| l.starts_with("  "))
        .collect();
    assert_eq!(body_lines.len(), 3);
}

#[test]
fn lowering_is_deterministic_and_temporary_stable() {
    let program = Program {
        functions: vec![add_function()],
    };
    let first = lower_program(&program);
    let second = lower_program(&program);
    let first_tac: Vec<String> = first.iter().map(codegen_tac::emit_function).collect();
    let second_tac: Vec<String> = second.iter().map(codegen_tac::emit_function).collect();
    assert_eq!(first_tac, second_tac);
}

#[test]
fn temporaries_restart_at_zero_per_function() {
    let mut f1 = add_function();
    f1.name = "one".to_string();
    let mut f2 = add_function();
    f2.name = "two".to_string();
    let program = Program {
        functions: vec![f1, f2],
    };
    let units = lower_program(&program);
    for unit in &units {
        match &unit.instrs[0] {
            Instr::BinOp { dest, .. } => assert_eq!(dest, "t0"),
            other => panic!("expected BinOp, got {:?}", other),
        }
    }
}

#[test]
fn char_literal_lowers_to_codepoint() {
    let program = Program {
        functions: vec![Function {
            name: "f".to_string(),
            return_type: Type::Char,
            params: vec![],
            body: Block {
                stmts: vec![Stmt::Return(Expr::CharLiteral('A'))],
            },
        }],
    };
    let units = lower_program(&program);
    match &units[0].instrs[0] {
        Instr::Return { src } => assert!(matches!(src, Some(Operand::ConstInt(65)))),
        other => panic!("expected Return, got {:?}", other),
    }
}

#[test]
fn unary_operators_lower_against_zero() {
    let program = Program {
        functions: vec![Function {
            name: "f".to_string(),
            return_type: Type::Int,
            params: vec![(Type::Int, "x".to_string())],
            body: Block {
                stmts: vec![
                    Stmt::ExprStmt(Expr::Unary {
                        op: UnaryOp::Neg,
                        expr: Box::new(Expr::Ident("x".to_string())),
                    }),
                    Stmt::ExprStmt(Expr::Unary {
                        op: UnaryOp::Not,
                        expr: Box::new(Expr::Ident("x".to_string())),
                    }),
                ],
            },
        }],
    };
    let units = lower_program(&program);
    match &units[0].instrs[0] {
        Instr::BinOp {
            dest,
            op,
            left,
            right,
        } => {
            assert_eq!(dest, "t0");
            assert_eq!(op, "neg");
            assert!(matches!(left, Operand::Local(n) if n == "x"));
            assert!(matches!(right, Operand::ConstInt(0)));
        }
        other => panic!("expected neg BinOp, got {:?}", other),
    }
    match &units[0].instrs[1] {
        Instr::BinOp { dest, op, .. } => {
            assert_eq!(dest, "t1");
            assert_eq!(op, "not");
        }
        other => panic!("expected not BinOp, got {:?}", other),
    }
}

#[test]
fn assignment_yields_target_slot_and_stores() {
    let program = Program {
        functions: vec![Function {
            name: "f".to_string(),
            return_type: Type::Int,
            params: vec![(Type::Int, "x".to_string())],
            body: Block {
                stmts: vec![Stmt::Return(Expr::Assign {
                    name: "x".to_string(),
                    value: Box::new(Expr::Number(5)),
                })],
            },
        }],
    };
    let units = lower_program(&program);
    assert_eq!(units[0].instrs.len(), 2);
    match &units[0].instrs[0] {
        Instr::StoreLocal { name, src } => {
            assert_eq!(name, "x");
            assert!(matches!(src, Operand::ConstInt(5)));
        }
        other => panic!("expected StoreLocal, got {:?}", other),
    }
    match &units[0].instrs[1] {
        Instr::Return { src } => assert!(matches!(src, Some(Operand::Local(n)) if n == "x")),
        other => panic!("expected Return, got {:?}", other),
    }
}

#[test]
fn call_lowers_arguments_then_call_with_fresh_destination() {
    let program = Program {
        functions: vec![Function {
            name: "f".to_string(),
            return_type: Type::Void,
            params: vec![],
            body: Block {
                stmts: vec![Stmt::ExprStmt(Expr::Call {
                    name: "printf".to_string(),
                    args: vec![
                        Expr::StringLiteral("x=%d".to_string()),
                        Expr::Number(42),
                    ],
                })],
            },
        }],
    };
    let units = lower_program(&program);
    assert_eq!(units[0].instrs.len(), 1);
    match &units[0].instrs[0] {
        Instr::Call { dest, name, args } => {
            assert_eq!(dest.as_deref(), Some("t0"));
            assert_eq!(name, "printf");
            assert_eq!(args.len(), 2);
            assert!(matches!(&args[0], Operand::ConstString(s) if s == "x=%d"));
            assert!(matches!(&args[1], Operand::ConstInt(42)));
        }
        other => panic!("expected Call, got {:?}", other),
    }
}

#[test]
fn float_literal_keeps_its_spelling() {
    let program = Program {
        functions: vec![Function {
            name: "f".to_string(),
            return_type: Type::Float,
            params: vec![],
            body: Block {
                stmts: vec![Stmt::Return(Expr::FloatNumber("2.5".to_string()))],
            },
        }],
    };
    let units = lower_program(&program);
    let tac = codegen_tac::emit_function(&units[0]);
    assert_eq!(tac, ".func f()\n{\n  RET 2.5\n}\n");
}

#[test]
fn ir_listing_renders_like_its_instructions() {
    let program = Program {
        functions: vec![add_function()],
    };
    let units = lower_program(&program);
    assert_eq!(
        units[0].to_text(),
        "func add(a, b) {\n  t0 = %a + %b\n  store %c <- t0\n  return %c\n}"
    );
}
