use mini_c::ast::{BinaryOp, Block, Expr, Function, Program, Stmt, Type};
use mini_c::codegen_tac;
use mini_c::codegen_x64_windows;
use mini_c::ir::{Instr, Operand};
use mini_c::lower::lower_program;
use mini_c::semantic::analyze;

#[test]
fn analyzed_program_flows_through_both_backends() {
    // int square(int n) { int s = n * n; return s; }
    // void main() { printf("%d", square(7)); }
    let program = Program {
        functions: vec![
            Function {
                name: "square".to_string(),
                return_type: Type::Int,
                params: vec![(Type::Int, "n".to_string())],
                body: Block {
                    stmts: vec![
                        Stmt::VarDecl {
                            ty: Type::Int,
                            name: "s".to_string(),
                            value: Expr::Binary {
                                op: BinaryOp::Mul,
                                left: Box::new(Expr::Ident("n".to_string())),
                                right: Box::new(Expr::Ident("n".to_string())),
                            },
                        },
                        Stmt::Return(Expr::Ident("s".to_string())),
                    ],
                },
            },
            Function {
                name: "main".to_string(),
                return_type: Type::Void,
                params: vec![],
                body: Block {
                    stmts: vec![Stmt::ExprStmt(Expr::Call {
                        name: "printf".to_string(),
                        args: vec![
                            Expr::StringLiteral("%d".to_string()),
                            Expr::Call {
                                name: "square".to_string(),
                                args: vec![Expr::Number(7)],
                            },
                        ],
                    })],
                },
            },
        ],
    };
    assert!(analyze(&program).is_ok());
    let units = lower_program(&program);
    assert_eq!(units.len(), 2);

    let tac_square = codegen_tac::emit_function(&units[0]);
    assert_eq!(
        tac_square,
        ".func square(n)\n{\n  t0 = %n * %n\n  MOV %s, t0\n  RET %s\n}\n"
    );
    let tac_main = codegen_tac::emit_function(&units[1]);
    assert_eq!(
        tac_main,
        ".func main()\n{\n  t0 = CALL square(7)\n  t1 = CALL printf(\"%d\", t0)\n}\n"
    );

    let x64_square = codegen_x64_windows::emit_function(&units[0]);
    assert!(x64_square.starts_with("; function square\npush rbp\nmov rbp, rsp\nsub rsp, 32\n"));
    assert!(x64_square.contains("    imul rax, rdx\n"));

    let x64_main = codegen_x64_windows::emit_function(&units[1]);
    let label = codegen_x64_windows::find_label_for_string("%d");
    assert!(x64_main.contains(&format!("lea rcx, [rel {}] ; string %d\n", label)));
    assert!(x64_main.contains("call square\n"));
    assert!(x64_main.contains("call printf\n"));
    assert!(x64_main.ends_with(&format!("\n; data section\n{}: db \"%d\",0\n", label)));
}

#[test]
fn dest_less_call_and_bare_return_render() {
    let unit = mini_c::ir::FunctionIR {
        name: "f".to_string(),
        params: vec![],
        instrs: vec![
            Instr::Call {
                dest: None,
                name: "g".to_string(),
                args: vec![],
            },
            Instr::Return { src: None },
        ],
    };
    let tac = codegen_tac::emit_function(&unit);
    assert_eq!(tac, ".func f()\n{\n  CALL g()\n  RET\n}\n");
    assert_eq!(unit.to_text(), "func f() {\n  call g()\n  return\n}");
    let listing = codegen_x64_windows::emit_function(&unit);
    assert_eq!(
        listing,
        "; function f\npush rbp\nmov rbp, rsp\nsub rsp, 32\ncall g\nmov rsp, rbp\npop rbp\nret\nmov rsp, rbp\npop rbp\nret\n"
    );
}

#[test]
fn negative_and_large_constants_render_in_decimal() {
    let op = Operand::ConstInt(-42);
    assert_eq!(op.to_text(), "-42");
    let min = Operand::ConstInt(i64::MIN);
    assert_eq!(min.to_text(), "-9223372036854775808");
    let max = Operand::ConstInt(i64::MAX);
    assert_eq!(max.to_text(), "9223372036854775807");
    assert_eq!(Operand::ConstInt(0).to_text(), "0");
}

#[test]
fn empty_program_is_accepted_and_lowers_to_nothing() {
    let program = Program { functions: vec![] };
    assert!(analyze(&program).is_ok());
    assert!(lower_program(&program).is_empty());
}

#[test]
fn empty_function_body_emits_only_frame_bookkeeping() {
    let program = Program {
        functions: vec![Function {
            name: "nop".to_string(),
            return_type: Type::Void,
            params: vec![],
            body: Block { stmts: vec![] },
        }],
    };
    assert!(analyze(&program).is_ok());
    let units = lower_program(&program);
    assert_eq!(units[0].instrs.len(), 0);
    assert_eq!(codegen_tac::emit_function(&units[0]), ".func nop()\n{\n}\n");
    assert_eq!(
        codegen_x64_windows::emit_function(&units[0]),
        "; function nop\npush rbp\nmov rbp, rsp\nsub rsp, 32\nmov rsp, rbp\npop rbp\nret\n"
    );
}
