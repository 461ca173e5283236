//! The TAC backend: a pure formatting pass from one IR unit to a readable
//! three-address-code listing, one `.func` block per function, one line per
//! instruction. Every operand kind has a defined textual form, so emission
//! never fails.

use vstd::prelude::*;

use crate::ir::{
    FunctionIR, FunctionIRV, Instr, InstrV, Operand, join_texts, lemma_join_push, operand_text,
    operand_texts, operands_view, push_joined,
};
use crate::text::{push_char, push_dec_i64};

verus! {

/// One listing line (indentation included, newline excluded).
pub open spec fn tac_line(i: InstrV) -> Seq<char> {
    match i {
        InstrV::StoreLocal { name, src } => "  MOV %"@ + name + ", "@ + operand_text(src),
        InstrV::Call { dest, name, args } => {
            let call = "CALL "@ + name + "("@ + join_texts(operand_texts(args), ", "@) + ")"@;
            match dest {
                Some(d) => "  "@ + d + " = "@ + call,
                None => "  "@ + call,
            }
        },
        InstrV::Return { src } => match src {
            Some(s) => "  RET "@ + operand_text(s),
            None => "  RET"@,
        },
        InstrV::BinOp { dest, op, left, right } => "  "@ + dest + " = "@ + operand_text(left)
            + " "@ + op + " "@ + operand_text(right),
    }
}

/// The whole listing of one IR unit: header, brace-delimited body with one
/// line per instruction, in order.
pub open spec fn tac_text(f: FunctionIRV) -> Seq<char> {
    ".func "@ + f.name + "("@ + join_texts(f.params, ", "@) + ")\n{\n"@
        + join_texts(f.instrs.map_values(|i: InstrV| tac_line(i) + "\n"@), Seq::empty()) + "}\n"@
}

/// The listing form of one operand.
fn fmt_operand(o: &Operand) -> (r: String)
    ensures
        r@ == operand_text(o@),
{
    match o {
        Operand::Temp(t) => t.clone(),
        Operand::Local(n) => {
            let mut out = String::new();
            push_char(&mut out, '%');
            out.append(n.as_str());
            proof {
                assert(out@ =~= operand_text(o@));
            }
            out
        },
        Operand::ConstInt(i) => {
            let mut out = String::new();
            push_dec_i64(&mut out, *i);
            proof {
                assert(out@ =~= operand_text(o@));
            }
            out
        },
        Operand::ConstFloat(f) => f.clone(),
        Operand::ConstString(s) => {
            let mut out = String::new();
            push_char(&mut out, '"');
            out.append(s.as_str());
            push_char(&mut out, '"');
            proof {
                assert(out@ =~= operand_text(o@));
            }
            out
        },
    }
}

/// The listing forms of `args`, in order, as fresh strings.
fn fmt_operands(args: &Vec<Operand>) -> (r: Vec<String>)
    ensures
        r@.map_values(|p: String| p@) == operand_texts(operands_view(args@)),
{
    let n = args.len();
    let mut r: Vec<String> = Vec::new();
    let mut i: usize = 0;
    while i < n
        invariant
            n == args@.len(),
            i <= n,
            r@.len() == i,
            forall|k: int| 0 <= k < i ==> #[trigger] r@[k]@ == operand_text(args@[k]@),
        decreases n - i,
    {
        r.push(fmt_operand(&args[i]));
        i += 1;
    }
    proof {
        assert(r@.map_values(|p: String| p@) =~= operand_texts(operands_view(args@)));
    }
    r
}

/// Appends one listing line for `instr` (indentation included, newline
/// excluded).
fn push_tac_line(out: &mut String, instr: &Instr)
    ensures
        final(out)@ == old(out)@ + tac_line(instr@),
{
    match instr {
        Instr::StoreLocal { name, src } => {
            out.append("  MOV %");
            out.append(name.as_str());
            out.append(", ");
            let src_text = fmt_operand(src);
            out.append(src_text.as_str());
        },
        Instr::Call { dest, name, args } => {
            out.append("  ");
            if let Some(d) = dest {
                out.append(d.as_str());
                out.append(" = ");
            }
            out.append("CALL ");
            out.append(name.as_str());
            out.append("(");
            let parts = fmt_operands(args);
            push_joined(out, &parts, ", ");
            out.append(")");
        },
        Instr::Return { src } => {
            match src {
                Some(s) => {
                    out.append("  RET ");
                    let s_text = fmt_operand(s);
                    out.append(s_text.as_str());
                },
                None => {
                    out.append("  RET");
                },
            }
        },
        Instr::BinOp { dest, op, left, right } => {
            out.append("  ");
            out.append(dest.as_str());
            out.append(" = ");
            let left_text = fmt_operand(left);
            out.append(left_text.as_str());
            out.append(" ");
            out.append(op.as_str());
            out.append(" ");
            let right_text = fmt_operand(right);
            out.append(right_text.as_str());
        },
    }
    proof {
        assert(out@ =~= old(out)@ + tac_line(instr@));
    }
}

/// Emits one function's IR in the TAC listing format.
pub fn emit_function(f: &FunctionIR) -> (r: String)
    ensures
        r@ == tac_text(f@),
{
    let mut out = String::new();
    out.append(".func ");
    out.append(f.name.as_str());
    out.append("(");
    push_joined(&mut out, &f.params, ", ");
    out.append(")\n{\n");
    let ghost lines = f@.instrs.map_values(|i: InstrV| tac_line(i) + "\n"@);
    let ghost header = out@;
    let n = f.instrs.len();
    let mut i: usize = 0;
    while i < n
        invariant
            n == f.instrs@.len(),
            i <= n,
            lines == f@.instrs.map_values(|j: InstrV| tac_line(j) + "\n"@),
            out@ == header + join_texts(lines.take(i as int), Seq::empty()),
        decreases n - i,
    {
        push_tac_line(&mut out, &f.instrs[i]);
        out.append("\n");
        proof {
            assert(lines.take(i as int).push(lines[i as int]) =~= lines.take(i + 1));
            lemma_join_push(lines.take(i as int), Seq::empty(), lines[i as int]);
            assert(out@ =~= header + join_texts(lines.take(i + 1), Seq::empty()));
        }
        i += 1;
    }
    out.append("}\n");
    proof {
        assert(lines.take(n as int) =~= lines);
        assert(out@ =~= tac_text(f@));
    }
    out
}

} // verus!
