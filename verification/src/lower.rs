//! Lowering from the syntax tree to linear three-address code: one IR unit
//! per function, produced by a single forward pass that invents temporaries
//! `t0, t1, t2, ...` in strictly increasing order, fresh for each function.
//! Statements and operands are emitted in source order, with no reordering
//! and no elimination. Lowering assumes its input already passed semantic
//! analysis and never fails.

use vstd::prelude::*;

use crate::ast::{BinaryOp, Expr, Function, Program, Stmt, Type, UnaryOp};
use crate::ir::{FunctionIR, FunctionIRV, Instr, InstrV, Operand, OperandV, instrs_view};
use crate::text::{dec_nat, push_char, u64_to_dec};

verus! {

/// The name of the `n`-th temporary: `t` followed by `n` in decimal.
pub open spec fn temp_name(n: nat) -> Seq<char> {
    seq!['t'] + dec_nat(n)
}

/// How many temporaries lowering this expression invents.
pub open spec fn n_temps(e: Expr) -> nat
    decreases e,
{
    match e {
        Expr::Unary { op: _, expr } => 1 + n_temps(*expr),
        Expr::Binary { op: _, left, right } => 1 + n_temps(*left) + n_temps(*right),
        Expr::Assign { name: _, value } => n_temps(*value),
        Expr::Call { name: _, args } => 1 + n_temps_args(args@),
        _ => 0,
    }
}

/// How many temporaries lowering this argument list invents.
pub open spec fn n_temps_args(args: Seq<Expr>) -> nat
    decreases args,
{
    if args.len() == 0 {
        0
    } else {
        n_temps_args(args.drop_last()) + n_temps(args.last())
    }
}

/// How many temporaries lowering this statement invents.
pub open spec fn n_temps_stmt(s: Stmt) -> nat {
    match s {
        Stmt::VarDecl { ty: _, name: _, value } => n_temps(value),
        Stmt::ExprStmt(e) => n_temps(e),
        Stmt::Return(e) => n_temps(e),
    }
}

/// How many temporaries lowering this statement list invents.
pub open spec fn n_temps_stmts(stmts: Seq<Stmt>) -> nat
    decreases stmts,
{
    if stmts.len() == 0 {
        0
    } else {
        n_temps_stmts(stmts.drop_last()) + n_temps_stmt(stmts.last())
    }
}

/// The operator symbol a unary operator lowers to; the missing operand is
/// filled with the constant 0.
pub open spec fn unary_symbol(op: UnaryOp) -> Seq<char> {
    match op {
        UnaryOp::Neg => "neg"@,
        UnaryOp::Not => "not"@,
    }
}

/// The operator symbol a binary operator lowers to.
pub open spec fn binary_symbol(op: BinaryOp) -> Seq<char> {
    match op {
        BinaryOp::Add => "+"@,
        BinaryOp::Sub => "-"@,
        BinaryOp::Mul => "*"@,
        BinaryOp::Div => "/"@,
    }
}

/// Lowering an expression under temporary counter `t`: the instructions
/// emitted, the operand that holds the expression's value, and the counter
/// after lowering.
pub open spec fn lower_expr_spec(e: Expr, t: nat) -> (Seq<InstrV>, OperandV, nat)
    decreases e,
{
    match e {
        Expr::Number(n) => (Seq::empty(), OperandV::ConstInt(n as int), t),
        Expr::FloatNumber(f) => (Seq::empty(), OperandV::ConstFloat(f@), t),
        Expr::CharLiteral(c) => (Seq::empty(), OperandV::ConstInt(c as int), t),
        Expr::StringLiteral(s) => (Seq::empty(), OperandV::ConstString(s@), t),
        Expr::Ident(name) => (Seq::empty(), OperandV::Local(name@), t),
        Expr::Unary { op, expr } => {
            let (ins, o, t1) = lower_expr_spec(*expr, t);
            let dest = temp_name(t1);
            (
                ins.push(InstrV::BinOp {
                    dest: dest,
                    op: unary_symbol(op),
                    left: o,
                    right: OperandV::ConstInt(0),
                }),
                OperandV::Temp(dest),
                t1 + 1,
            )
        },
        Expr::Binary { op, left, right } => {
            let (li, lo, t1) = lower_expr_spec(*left, t);
            let (ri, ro, t2) = lower_expr_spec(*right, t1);
            let dest = temp_name(t2);
            (
                (li + ri).push(InstrV::BinOp {
                    dest: dest,
                    op: binary_symbol(op),
                    left: lo,
                    right: ro,
                }),
                OperandV::Temp(dest),
                t2 + 1,
            )
        },
        Expr::Assign { name, value } => {
            let (vi, vo, t1) = lower_expr_spec(*value, t);
            (
                vi.push(InstrV::StoreLocal { name: name@, src: vo }),
                OperandV::Local(name@),
                t1,
            )
        },
        Expr::Call { name, args } => {
            let (ai, aops, t1) = lower_args_spec(args@, t);
            let dest = temp_name(t1);
            (
                ai.push(InstrV::Call { dest: Some(dest), name: name@, args: aops }),
                OperandV::Temp(dest),
                t1 + 1,
            )
        },
    }
}

/// Lowering an argument list left to right under temporary counter `t`.
pub open spec fn lower_args_spec(args: Seq<Expr>, t: nat) -> (Seq<InstrV>, Seq<OperandV>, nat)
    decreases args,
{
    if args.len() == 0 {
        (Seq::empty(), Seq::empty(), t)
    } else {
        let (ri, ro, tr) = lower_args_spec(args.drop_last(), t);
        let (li, lo, tl) = lower_expr_spec(args.last(), tr);
        (ri + li, ro.push(lo), tl)
    }
}

/// Lowering one statement under temporary counter `t`.
pub open spec fn lower_stmt_spec(s: Stmt, t: nat) -> (Seq<InstrV>, nat) {
    match s {
        Stmt::VarDecl { ty: _, name, value } => {
            let (vi, vo, t1) = lower_expr_spec(value, t);
            (vi.push(InstrV::StoreLocal { name: name@, src: vo }), t1)
        },
        Stmt::ExprStmt(e) => {
            let (ei, _, t1) = lower_expr_spec(e, t);
            (ei, t1)
        },
        Stmt::Return(e) => {
            let (ei, eo, t1) = lower_expr_spec(e, t);
            (ei.push(InstrV::Return { src: Some(eo) }), t1)
        },
    }
}

/// Lowering a statement list in source order under temporary counter `t`.
pub open spec fn lower_stmts_spec(stmts: Seq<Stmt>, t: nat) -> (Seq<InstrV>, nat)
    decreases stmts,
{
    if stmts.len() == 0 {
        (Seq::empty(), t)
    } else {
        let (ri, tr) = lower_stmts_spec(stmts.drop_last(), t);
        let (li, tl) = lower_stmt_spec(stmts.last(), tr);
        (ri + li, tl)
    }
}

/// The IR unit lowering produces for one function: parameters keep their
/// names and order, the body lowers with the temporary counter starting
/// at 0.
pub open spec fn lower_function_spec(f: Function) -> FunctionIRV {
    FunctionIRV {
        name: f.name@,
        params: f.params@.map_values(|p: (Type, String)| p.1@),
        instrs: lower_stmts_spec(f.body.stmts@, 0).0,
    }
}

/// The views of a sequence of IR units, in order.
pub open spec fn function_irs_view(s: Seq<FunctionIR>) -> Seq<FunctionIRV> {
    s.map_values(|f: FunctionIR| f@)
}

/// Lowering a whole program: one IR unit per function, in program order.
pub open spec fn lower_program_spec(p: Program) -> Seq<FunctionIRV> {
    p.functions@.map_values(|f: Function| lower_function_spec(f))
}

/// The counter after lowering an expression is the starting counter plus
/// the number of temporaries the expression needs.
pub proof fn lemma_lower_expr_count(e: Expr, t: nat)
    ensures
        lower_expr_spec(e, t).2 == t + n_temps(e),
    decreases e,
{
    match e {
        Expr::Unary { op: _, expr } => {
            lemma_lower_expr_count(*expr, t);
        },
        Expr::Binary { op: _, left, right } => {
            lemma_lower_expr_count(*left, t);
            lemma_lower_expr_count(*right, lower_expr_spec(*left, t).2);
        },
        Expr::Assign { name: _, value } => {
            lemma_lower_expr_count(*value, t);
        },
        Expr::Call { name: _, args } => {
            lemma_lower_args_count(args@, t);
        },
        _ => {},
    }
}

/// The counter after lowering an argument list is the starting counter plus
/// the temporaries the arguments need.
pub proof fn lemma_lower_args_count(args: Seq<Expr>, t: nat)
    ensures
        lower_args_spec(args, t).2 == t + n_temps_args(args),
    decreases args,
{
    if args.len() > 0 {
        lemma_lower_args_count(args.drop_last(), t);
        lemma_lower_expr_count(args.last(), lower_args_spec(args.drop_last(), t).2);
    }
}

/// The counter after lowering a statement list is the starting counter plus
/// the temporaries the statements need.
pub proof fn lemma_lower_stmts_count(stmts: Seq<Stmt>, t: nat)
    ensures
        lower_stmts_spec(stmts, t).1 == t + n_temps_stmts(stmts),
    decreases stmts,
{
    if stmts.len() > 0 {
        lemma_lower_stmts_count(stmts.drop_last(), t);
        let s = stmts.last();
        let tr = lower_stmts_spec(stmts.drop_last(), t).1;
        match s {
            Stmt::VarDecl { ty: _, name: _, value } => lemma_lower_expr_count(value, tr),
            Stmt::ExprStmt(e) => lemma_lower_expr_count(e, tr),
            Stmt::Return(e) => lemma_lower_expr_count(e, tr),
        }
    }
}

/// Lowering is deterministic and temporary-stable: the lowered form of a
/// program is a function of the program alone, with the temporary counter
/// starting at 0 in every function, so lowering the same program twice
/// gives identical instruction sequences and identical temporary names.
pub proof fn lemma_lowering_deterministic(p: Program, r1: Seq<FunctionIRV>, r2: Seq<FunctionIRV>)
    requires
        r1 == lower_program_spec(p),
        r2 == lower_program_spec(p),
    ensures
        r1 == r2,
{
}

/// The per-function counter that names fresh temporaries.
pub struct LowerState {
    tmp: usize,
}

impl View for LowerState {
    type V = nat;

    closed spec fn view(&self) -> nat {
        self.tmp as nat
    }
}

impl LowerState {
    /// A fresh counter, starting at 0.
    pub fn new() -> (r: LowerState)
        ensures
            r@ == 0,
    {
        LowerState { tmp: 0 }
    }

    /// The next temporary's name; the counter moves past it.
    pub fn gen_tmp(&mut self) -> (r: String)
        requires
            old(self)@ < usize::MAX,
        ensures
            final(self)@ == old(self)@ + 1,
            r@ == temp_name(old(self)@),
    {
        let id = self.tmp;
        self.tmp = self.tmp + 1;
        let mut out = String::new();
        push_char(&mut out, 't');
        let digits = u64_to_dec(id as u64);
        out.append(digits.as_str());
        proof {
            assert(out@ =~= temp_name(old(self)@));
        }
        out
    }
}

/// Lowers one expression, appending its instructions to `instrs` and
/// returning the operand that holds its value.
#[verifier::loop_isolation(false)]
fn lower_expr(e: &Expr, state: &mut LowerState, instrs: &mut Vec<Instr>) -> (r: Operand)
    requires
        old(state)@ + n_temps(*e) <= usize::MAX,
    ensures
        ({
            let (ins, o, t) = lower_expr_spec(*e, old(state)@);
            &&& instrs_view(final(instrs)@) == instrs_view(old(instrs)@) + ins
            &&& r@ == o
            &&& final(state)@ == t
        }),
    decreases *e,
{
    let ghost pre = instrs_view(instrs@);
    match e {
        Expr::Number(n) => {
            proof {
                assert(instrs_view(instrs@) =~= pre + Seq::<InstrV>::empty());
            }
            Operand::ConstInt(*n)
        },
        Expr::FloatNumber(f) => {
            proof {
                assert(instrs_view(instrs@) =~= pre + Seq::<InstrV>::empty());
            }
            Operand::ConstFloat(f.clone())
        },
        Expr::CharLiteral(c) => {
            proof {
                assert(instrs_view(instrs@) =~= pre + Seq::<InstrV>::empty());
            }
            Operand::ConstInt(*c as i64)
        },
        Expr::StringLiteral(s) => {
            proof {
                assert(instrs_view(instrs@) =~= pre + Seq::<InstrV>::empty());
            }
            Operand::ConstString(s.clone())
        },
        Expr::Ident(name) => {
            proof {
                assert(instrs_view(instrs@) =~= pre + Seq::<InstrV>::empty());
            }
            Operand::Local(name.clone())
        },
        Expr::Unary { op, expr } => {
            proof {
                lemma_lower_expr_count(**expr, old(state)@);
            }
            let o = lower_expr(expr, state, instrs);
            let dest = state.gen_tmp();
            let opname: String = match op {
                UnaryOp::Neg => "neg".to_owned(),
                UnaryOp::Not => "not".to_owned(),
            };
            let ghost mid = instrs_view(instrs@);
            instrs.push(Instr::BinOp {
                dest: dest.clone(),
                op: opname,
                left: o,
                right: Operand::ConstInt(0),
            });
            proof {
                assert(instrs_view(instrs@) =~= mid.push(instrs@.last()@));
                assert(instrs_view(instrs@) =~= pre + lower_expr_spec(*e, old(state)@).0);
            }
            Operand::Temp(dest)
        },
        Expr::Binary { op, left, right } => {
            proof {
                lemma_lower_expr_count(**left, old(state)@);
                lemma_lower_expr_count(**right, lower_expr_spec(**left, old(state)@).2);
            }
            let lo = lower_expr(left, state, instrs);
            let ro = lower_expr(right, state, instrs);
            let dest = state.gen_tmp();
            let opname: String = match op {
                BinaryOp::Add => "+".to_owned(),
                BinaryOp::Sub => "-".to_owned(),
                BinaryOp::Mul => "*".to_owned(),
                BinaryOp::Div => "/".to_owned(),
            };
            let ghost mid = instrs_view(instrs@);
            instrs.push(Instr::BinOp { dest: dest.clone(), op: opname, left: lo, right: ro });
            proof {
                assert(instrs_view(instrs@) =~= mid.push(instrs@.last()@));
                let (li, lov, t1) = lower_expr_spec(**left, old(state)@);
                let (ri, rov, t2) = lower_expr_spec(**right, t1);
                assert(instrs_view(instrs@) =~= pre + (li + ri).push(instrs@.last()@));
                assert(instrs_view(instrs@) =~= pre + lower_expr_spec(*e, old(state)@).0);
            }
            Operand::Temp(dest)
        },
        Expr::Assign { name, value } => {
            let v = lower_expr(value, state, instrs);
            let ghost mid = instrs_view(instrs@);
            instrs.push(Instr::StoreLocal { name: name.clone(), src: v });
            proof {
                assert(instrs_view(instrs@) =~= mid.push(instrs@.last()@));
                assert(instrs_view(instrs@) =~= pre + lower_expr_spec(*e, old(state)@).0);
            }
            Operand::Local(name.clone())
        },
        Expr::Call { name, args } => {
            let ghost t0 = state@;
            let n = args.len();
            let mut op_args: Vec<Operand> = Vec::new();
            let mut i: usize = 0;
            while i < n
                invariant
                    n == args@.len(),
                    i <= n,
                    t0 + n_temps_args(args@) + 1 <= usize::MAX,
                    ({
                        let (ai, aops, ti) = lower_args_spec(args@.take(i as int), t0);
                        &&& instrs_view(instrs@) == pre + ai
                        &&& op_args@.map_values(|x: Operand| x@) == aops
                        &&& state@ == ti
                    }),
                decreases n - i,
            {
                proof {
                    lemma_lower_args_count(args@.take(i as int), t0);
                    lemma_n_temps_args_split(args@, i as int);
                    assert(decreases_to!(*e => *args));
                    assert(decreases_to!(*args => args@));
                    assert(decreases_to!(args@ => args@[i as int]));
                    assert(decreases_to!(*e => args@[i as int]));
                }
                let o = lower_expr(&args[i], state, instrs);
                op_args.push(o);
                proof {
                    let (ai, aops, ti) = lower_args_spec(args@.take(i as int), t0);
                    assert(args@.take(i + 1).drop_last() =~= args@.take(i as int));
                    assert(args@.take(i + 1).last() == args@[i as int]);
                    let (li, lo, tl) = lower_expr_spec(args@[i as int], ti);
                    assert(instrs_view(instrs@) =~= pre + (ai + li));
                    assert(op_args@.map_values(|x: Operand| x@) =~= aops.push(lo));
                }
                i += 1;
            }
            proof {
                assert(args@.take(n as int) =~= args@);
                lemma_lower_args_count(args@, t0);
            }
            let dest = state.gen_tmp();
            let ghost mid = instrs_view(instrs@);
            instrs.push(Instr::Call { dest: Some(dest.clone()), name: name.clone(), args: op_args });
            proof {
                assert(instrs_view(instrs@) =~= mid.push(instrs@.last()@));
                assert(instrs_view(instrs@) =~= pre + lower_expr_spec(*e, old(state)@).0);
            }
            Operand::Temp(dest)
        },
    }
}

/// Splitting the temporary count of an argument list at position `i`.
proof fn lemma_n_temps_args_split(args: Seq<Expr>, i: int)
    requires
        0 <= i < args.len(),
    ensures
        n_temps_args(args) == n_temps_args(args.take(i)) + n_temps(args[i]) + n_temps_args(
            args.skip(i + 1)),
    decreases args.len(),
{
    if i + 1 == args.len() {
        assert(args.drop_last() =~= args.take(i));
        assert(args.skip(i + 1) =~= Seq::<Expr>::empty());
    } else {
        lemma_n_temps_args_split(args.drop_last(), i);
        assert(args.drop_last().take(i) =~= args.take(i));
        assert(args.drop_last().skip(i + 1) =~= args.skip(i + 1).drop_last());
        assert(args.skip(i + 1).last() == args.last());
    }
}

/// Lowers one statement, appending its instructions to `instrs`.
fn lower_stmt(s: &Stmt, state: &mut LowerState, instrs: &mut Vec<Instr>)
    requires
        old(state)@ + n_temps_stmt(*s) <= usize::MAX,
    ensures
        ({
            let (ins, t) = lower_stmt_spec(*s, old(state)@);
            &&& instrs_view(final(instrs)@) == instrs_view(old(instrs)@) + ins
            &&& final(state)@ == t
        }),
{
    let ghost pre = instrs_view(instrs@);
    match s {
        Stmt::VarDecl { ty: _, name, value } => {
            let v = lower_expr(value, state, instrs);
            let ghost mid = instrs_view(instrs@);
            instrs.push(Instr::StoreLocal { name: name.clone(), src: v });
            proof {
                assert(instrs_view(instrs@) =~= mid.push(instrs@.last()@));
                assert(instrs_view(instrs@) =~= pre + lower_stmt_spec(*s, old(state)@).0);
            }
        },
        Stmt::ExprStmt(e) => {
            let _ = lower_expr(e, state, instrs);
        },
        Stmt::Return(e) => {
            let v = lower_expr(e, state, instrs);
            let ghost mid = instrs_view(instrs@);
            instrs.push(Instr::Return { src: Some(v) });
            proof {
                assert(instrs_view(instrs@) =~= mid.push(instrs@.last()@));
                assert(instrs_view(instrs@) =~= pre + lower_stmt_spec(*s, old(state)@).0);
            }
        },
    }
}

/// Lowers a whole program, one IR unit per function in program order.
/// The bound on each function's temporary count is the machine limit on
/// the counter; any tree that fits in memory satisfies it.
pub fn lower_program(prog: &Program) -> (r: Vec<FunctionIR>)
    requires
        forall|i: int|
            0 <= i < prog.functions@.len() ==> n_temps_stmts(
                (#[trigger] prog.functions@[i]).body.stmts@) <= usize::MAX,
    ensures
        function_irs_view(r@) == lower_program_spec(*prog),
{
    let nf = prog.functions.len();
    let mut res: Vec<FunctionIR> = Vec::new();
    let mut fi: usize = 0;
    while fi < nf
        invariant
            nf == prog.functions@.len(),
            fi <= nf,
            forall|i: int|
                0 <= i < prog.functions@.len() ==> n_temps_stmts(
                    (#[trigger] prog.functions@[i]).body.stmts@) <= usize::MAX,
            function_irs_view(res@) == lower_program_spec(*prog).take(fi as int),
        decreases nf - fi,
    {
        let func = &prog.functions[fi];
        let mut state = LowerState::new();
        let mut instrs: Vec<Instr> = Vec::new();
        let ns = func.body.stmts.len();
        let mut si: usize = 0;
        while si < ns
            invariant
                ns == func.body.stmts@.len(),
                n_temps_stmts(func.body.stmts@) <= usize::MAX,
                si <= ns,
                ({
                    let (ins, t) = lower_stmts_spec(func.body.stmts@.take(si as int), 0);
                    &&& instrs_view(instrs@) == ins
                    &&& state@ == t
                }),
            decreases ns - si,
        {
            proof {
                lemma_lower_stmts_count(func.body.stmts@.take(si as int), 0);
                lemma_n_temps_stmts_split(func.body.stmts@, si as int);
            }
            lower_stmt(&func.body.stmts[si], &mut state, &mut instrs);
            proof {
                assert(func.body.stmts@.take(si + 1).drop_last() =~= func.body.stmts@.take(
                    si as int));
                assert(func.body.stmts@.take(si + 1).last() == func.body.stmts@[si as int]);
            }
            si += 1;
        }
        proof {
            assert(func.body.stmts@.take(ns as int) =~= func.body.stmts@);
        }
        let mut params: Vec<String> = Vec::new();
        let np = func.params.len();
        let mut pi: usize = 0;
        while pi < np
            invariant
                np == func.params@.len(),
                pi <= np,
                params@.len() == pi,
                forall|k: int| 0 <= k < pi ==> #[trigger] params@[k]@ == func.params@[k].1@,
            decreases np - pi,
        {
            params.push(func.params[pi].1.clone());
            pi += 1;
        }
        let fir = FunctionIR { name: func.name.clone(), params, instrs };
        proof {
            assert(fir@.params =~= lower_function_spec(prog.functions@[fi as int]).params);
            assert(fir@ == lower_function_spec(prog.functions@[fi as int]));
        }
        let ghost prev_res = res@;
        res.push(fir);
        proof {
            assert(function_irs_view(res@) =~= function_irs_view(prev_res).push(fir@));
            assert(lower_program_spec(*prog).take(fi + 1) =~= lower_program_spec(*prog).take(
                fi as int).push(lower_function_spec(prog.functions@[fi as int])));
            assert(function_irs_view(res@) =~= lower_program_spec(*prog).take(fi + 1));
        }
        fi += 1;
    }
    proof {
        assert(lower_program_spec(*prog).take(nf as int) =~= lower_program_spec(*prog));
    }
    res
}

/// Splitting the temporary count of a statement list at position `i`.
proof fn lemma_n_temps_stmts_split(stmts: Seq<Stmt>, i: int)
    requires
        0 <= i < stmts.len(),
    ensures
        n_temps_stmts(stmts) == n_temps_stmts(stmts.take(i)) + n_temps_stmt(stmts[i])
            + n_temps_stmts(stmts.skip(i + 1)),
    decreases stmts.len(),
{
    if i + 1 == stmts.len() {
        assert(stmts.drop_last() =~= stmts.take(i));
        assert(stmts.skip(i + 1) =~= Seq::<Stmt>::empty());
    } else {
        lemma_n_temps_stmts_split(stmts.drop_last(), i);
        assert(stmts.drop_last().take(i) =~= stmts.take(i));
        assert(stmts.drop_last().skip(i + 1) =~= stmts.skip(i + 1).drop_last());
        assert(stmts.skip(i + 1).last() == stmts.last());
    }
}

} // verus!
