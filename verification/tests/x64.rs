use mini_c::ast::{BinaryOp, Block, Expr, Function, Program, Stmt, Type};
use mini_c::codegen_x64_windows::{
    assign_slots, collect_strings, emit_function, find_label_for_string, frame_size,
};
use mini_c::ir::{FunctionIR, Instr, Operand};
use mini_c::lower::lower_program;

fn lowered_add() -> FunctionIR {
    let program = Program {
        functions: vec![Function {
            name: "add".to_string(),
            return_type: Type::Int,
            params: vec![(Type::Int, "a".to_string()), (Type::Int, "b".to_string())],
            body: Block {
                stmts: vec![
                    Stmt::VarDecl {
                        ty: Type::Int,
                        name: "c".to_string(),
                        value: Expr::Binary {
                            op: BinaryOp::Add,
                            left: Box::new(Expr::Ident("a".to_string())),
                            right: Box::new(Expr::Ident("b".to_string())),
                        },
                    },
                    Stmt::Return(Expr::Ident("c".to_string())),
                ],
            },
        }],
    };
    lower_program(&program).remove(0)
}

#[test]
fn emits_exact_assembly_for_add() {
    let unit = lowered_add();
    let listing = emit_function(&unit);
    let expected = "; function add\npush rbp\nmov rbp, rsp\nsub rsp, 32\n\
mov rax, [rbp-8]\nmov rdx, [rbp-16]\n    add rax, rdx\nmov [rbp-24], rax\n\
mov rax, [rbp-24]\nmov [rbp-32], rax\n\
mov rax, [rbp-32]\nmov rsp, rbp\npop rbp\nret\n\
mov rsp, rbp\npop rbp\nret\n";
    assert_eq!(listing, expected);
}

#[test]
fn slot_assignment_is_injective_and_8_byte_spaced() {
    let unit = lowered_add();
    let (slots, offset) = assign_slots(&unit);
    assert_eq!(offset, 8 * slots.len() as i32);
    for (k, (_, off)) in slots.iter().enumerate() {
        assert_eq!(*off, 8 * (k as i32 + 1));
    }
    for i in 0..slots.len() {
        for j in (i + 1)..slots.len() {
            assert_ne!(slots[i].0, slots[j].0, "names must be unique");
            assert_ne!(slots[i].1, slots[j].1, "offsets must be unique");
        }
    }
    let names: Vec<&str> = slots.iter().map(|(n, _)| n.as_str()).collect();
    assert_eq!(names, vec!["a", "b", "t0", "c"]);
}

#[test]
fn a_name_is_never_reassigned() {
    let unit = FunctionIR {
        name: "f".to_string(),
        params: vec!["x".to_string()],
        instrs: vec![
            Instr::StoreLocal {
                name: "x".to_string(),
                src: Operand::ConstInt(1),
            },
            Instr::StoreLocal {
                name: "x".to_string(),
                src: Operand::ConstInt(2),
            },
        ],
    };
    let (slots, offset) = assign_slots(&unit);
    assert_eq!(slots.len(), 1);
    assert_eq!(slots[0], ("x".to_string(), 8));
    assert_eq!(offset, 8);
}

#[test]
fn frame_size_is_aligned_with_floor() {
    assert_eq!(frame_size(0), 32);
    assert_eq!(frame_size(8), 32);
    assert_eq!(frame_size(32), 32);
    assert_eq!(frame_size(33), 48);
    assert_eq!(frame_size(40), 48);
    assert_eq!(frame_size(48), 48);
    assert_eq!(frame_size(100), 112);
    for off in 0..200 {
        let f = frame_size(off);
        assert_eq!(f % 16, 0);
        assert!(f >= 32);
        assert!(f >= off);
    }
}

#[test]
fn string_pool_labels_match_the_checksum() {
    let label = find_label_for_string("hello");
    assert_eq!(label, format!("LSTR_{}", crc32fast::hash(b"hello")));
    assert_eq!(label, "LSTR_907060870");
}

#[test]
fn string_pooling_is_idempotent_on_value() {
    let unit = FunctionIR {
        name: "f".to_string(),
        params: vec![],
        instrs: vec![
            Instr::Call {
                dest: Some("t0".to_string()),
                name: "printf".to_string(),
                args: vec![Operand::ConstString("hi".to_string())],
            },
            Instr::Call {
                dest: Some("t1".to_string()),
                name: "printf".to_string(),
                args: vec![Operand::ConstString("hi".to_string())],
            },
        ],
    };
    let pool = collect_strings(&unit);
    assert_eq!(pool.len(), 1);
    assert_eq!(pool[0].0, "hi");
    assert_eq!(pool[0].1, format!("LSTR_{}", crc32fast::hash(b"hi")));

    let listing = emit_function(&unit);
    let entries: Vec<&str> = listing.lines().filter(|l| l.contains(": db ")).collect();
    assert_eq!(entries.len(), 1);
    assert_eq!(
        entries[0],
        format!("LSTR_{}: db \"hi\",0", crc32fast::hash(b"hi"))
    );
}

#[test]
fn binop_operands_reach_the_pool_too() {
    let unit = FunctionIR {
        name: "f".to_string(),
        params: vec![],
        instrs: vec![Instr::BinOp {
            dest: "t0".to_string(),
            op: "+".to_string(),
            left: Operand::ConstString("left".to_string()),
            right: Operand::ConstString("right".to_string()),
        }],
    };
    let pool = collect_strings(&unit);
    let values: Vec<&str> = pool.iter().map(|(s, _)| s.as_str()).collect();
    assert_eq!(values, vec!["left", "right"]);
}

#[test]
fn division_sign_extends_before_dividing() {
    let unit = FunctionIR {
        name: "f".to_string(),
        params: vec![],
        instrs: vec![Instr::BinOp {
            dest: "t0".to_string(),
            op: "/".to_string(),
            left: Operand::ConstInt(10),
            right: Operand::ConstInt(3),
        }],
    };
    let listing = emit_function(&unit);
    assert!(listing.contains("mov rax, 10\n"));
    assert!(listing.contains("mov r10, 3\n"));
    assert!(listing.contains("    cqo\n    idiv r10\n"));
    assert!(!listing.contains("idiv rdx"));
}

#[test]
fn float_constant_emits_placeholder() {
    let unit = FunctionIR {
        name: "f".to_string(),
        params: vec![],
        instrs: vec![Instr::Return {
            src: Some(Operand::ConstFloat("1.5".to_string())),
        }],
    };
    let listing = emit_function(&unit);
    assert!(listing.contains("; load float 1.5 into rax (not implemented)\nmov rax, 0\n"));
}

#[test]
fn first_four_arguments_use_registers_then_stack() {
    let unit = FunctionIR {
        name: "f".to_string(),
        params: vec![],
        instrs: vec![Instr::Call {
            dest: Some("t0".to_string()),
            name: "g".to_string(),
            args: vec![
                Operand::ConstInt(1),
                Operand::ConstInt(2),
                Operand::ConstInt(3),
                Operand::ConstInt(4),
                Operand::ConstInt(5),
            ],
        }],
    };
    let listing = emit_function(&unit);
    assert!(listing.contains("mov rcx, 1\n"));
    assert!(listing.contains("mov rdx, 2\n"));
    assert!(listing.contains("mov r8, 3\n"));
    assert!(listing.contains("mov r9, 4\n"));
    assert!(listing.contains("mov rax, 5\npush rax\n"));
    assert!(listing.contains("call g\n"));
    assert!(listing.contains("mov [rbp-8], rax\n"));
}

#[test]
fn quotes_in_pooled_strings_are_escaped() {
    let unit = FunctionIR {
        name: "f".to_string(),
        params: vec![],
        instrs: vec![Instr::Call {
            dest: Some("t0".to_string()),
            name: "printf".to_string(),
            args: vec![Operand::ConstString("say \"hi\"".to_string())],
        }],
    };
    let listing = emit_function(&unit);
    assert!(listing.contains(": db \"say \\\"hi\\\"\",0\n"));
}
