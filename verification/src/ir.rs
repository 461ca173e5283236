//! The linear intermediate representation: three-address instructions over
//! operands that are temporaries, named local slots, or literal constants.
//! One IR unit per source function; units are produced once by lowering and
//! read without mutation by the emitters.
//!
//! A float constant carries its decimal spelling, which is all the backends
//! read from it: the TAC listing prints it back, and the x64 backend emits
//! a placeholder for it.

use vstd::prelude::*;

use crate::text::{dec_int, push_char, push_dec_i64};

verus! {

/// A value reference inside the IR.
#[derive(Debug)]
pub enum Operand {
    Temp(String),
    Local(String),
    ConstInt(i64),
    ConstFloat(String),
    ConstString(String),
}

/// The mathematical value of an [`Operand`].
pub enum OperandV {
    Temp(Seq<char>),
    Local(Seq<char>),
    ConstInt(int),
    ConstFloat(Seq<char>),
    ConstString(Seq<char>),
}

impl View for Operand {
    type V = OperandV;

    open spec fn view(&self) -> OperandV {
        match self {
            Operand::Temp(t) => OperandV::Temp(t@),
            Operand::Local(n) => OperandV::Local(n@),
            Operand::ConstInt(i) => OperandV::ConstInt(*i as int),
            Operand::ConstFloat(f) => OperandV::ConstFloat(f@),
            Operand::ConstString(s) => OperandV::ConstString(s@),
        }
    }
}

impl Clone for Operand {
    fn clone(&self) -> (r: Operand)
        ensures
            r@ == self@,
    {
        match self {
            Operand::Temp(t) => Operand::Temp(t.clone()),
            Operand::Local(n) => Operand::Local(n.clone()),
            Operand::ConstInt(i) => Operand::ConstInt(*i),
            Operand::ConstFloat(f) => Operand::ConstFloat(f.clone()),
            Operand::ConstString(s) => Operand::ConstString(s.clone()),
        }
    }
}

/// One three-address instruction.
#[derive(Debug)]
pub enum Instr {
    StoreLocal { name: String, src: Operand },
    Call { dest: Option<String>, name: String, args: Vec<Operand> },
    Return { src: Option<Operand> },
    BinOp { dest: String, op: String, left: Operand, right: Operand },
}

/// The mathematical value of an [`Instr`].
pub enum InstrV {
    StoreLocal { name: Seq<char>, src: OperandV },
    Call { dest: Option<Seq<char>>, name: Seq<char>, args: Seq<OperandV> },
    Return { src: Option<OperandV> },
    BinOp { dest: Seq<char>, op: Seq<char>, left: OperandV, right: OperandV },
}

/// The views of a sequence of operands, in order.
pub open spec fn operands_view(s: Seq<Operand>) -> Seq<OperandV> {
    s.map_values(|o: Operand| o@)
}

impl View for Instr {
    type V = InstrV;

    open spec fn view(&self) -> InstrV {
        match self {
            Instr::StoreLocal { name, src } => InstrV::StoreLocal { name: name@, src: src@ },
            Instr::Call { dest, name, args } => InstrV::Call {
                dest: match dest {
                    Some(d) => Some(d@),
                    None => None,
                },
                name: name@,
                args: operands_view(args@),
            },
            Instr::Return { src } => InstrV::Return {
                src: match src {
                    Some(s) => Some(s@),
                    None => None,
                },
            },
            Instr::BinOp { dest, op, left, right } => InstrV::BinOp {
                dest: dest@,
                op: op@,
                left: left@,
                right: right@,
            },
        }
    }
}

/// One function's worth of IR: name, ordered parameter names, and the
/// ordered instruction sequence.
#[derive(Debug)]
pub struct FunctionIR {
    pub name: String,
    pub params: Vec<String>,
    pub instrs: Vec<Instr>,
}

/// The mathematical value of a [`FunctionIR`].
pub struct FunctionIRV {
    pub name: Seq<char>,
    pub params: Seq<Seq<char>>,
    pub instrs: Seq<InstrV>,
}

/// The views of a sequence of instructions, in order.
pub open spec fn instrs_view(s: Seq<Instr>) -> Seq<InstrV> {
    s.map_values(|i: Instr| i@)
}

impl View for FunctionIR {
    type V = FunctionIRV;

    open spec fn view(&self) -> FunctionIRV {
        FunctionIRV {
            name: self.name@,
            params: self.params@.map_values(|p: String| p@),
            instrs: instrs_view(self.instrs@),
        }
    }
}

/// `parts` joined with `sep` between consecutive elements.
pub open spec fn join_texts(parts: Seq<Seq<char>>, sep: Seq<char>) -> Seq<char>
    decreases parts.len(),
{
    if parts.len() == 0 {
        Seq::empty()
    } else if parts.len() == 1 {
        parts[0]
    } else {
        join_texts(parts.drop_last(), sep) + sep + parts.last()
    }
}

/// The listing form of an operand: a temporary by its name, a local slot
/// with a `%` sigil, constants as literal text, strings quoted.
pub open spec fn operand_text(o: OperandV) -> Seq<char> {
    match o {
        OperandV::Temp(t) => t,
        OperandV::Local(n) => seq!['%'] + n,
        OperandV::ConstInt(i) => dec_int(i),
        OperandV::ConstFloat(f) => f,
        OperandV::ConstString(s) => seq!['"'] + s + seq!['"'],
    }
}

/// The listing forms of a sequence of operands, in order.
pub open spec fn operand_texts(args: Seq<OperandV>) -> Seq<Seq<char>> {
    args.map_values(|o: OperandV| operand_text(o))
}

/// The debug-listing form of one instruction.
pub open spec fn instr_text(i: InstrV) -> Seq<char> {
    match i {
        InstrV::StoreLocal { name, src } => "store %"@ + name + " <- "@ + operand_text(src),
        InstrV::Call { dest, name, args } => {
            let call = "call "@ + name + "("@ + join_texts(operand_texts(args), ", "@) + ")"@;
            match dest {
                Some(d) => d + " = "@ + call,
                None => call,
            }
        },
        InstrV::Return { src } => match src {
            Some(s) => "return "@ + operand_text(s),
            None => "return"@,
        },
        InstrV::BinOp { dest, op, left, right } => dest + " = "@ + operand_text(left) + " "@ + op
            + " "@ + operand_text(right),
    }
}

/// The debug-listing form of a whole IR unit.
pub open spec fn function_ir_text(f: FunctionIRV) -> Seq<char> {
    "func "@ + f.name + "("@ + join_texts(f.params, ", "@) + ") {\n"@
        + join_texts(f.instrs.map_values(|i: InstrV| "  "@ + instr_text(i) + "\n"@), Seq::empty())
        + "}"@
}

/// Joining one more part: the definitional step, stated for loop proofs.
pub proof fn lemma_join_push(parts: Seq<Seq<char>>, sep: Seq<char>, x: Seq<char>)
    ensures
        join_texts(parts.push(x), sep) == if parts.len() == 0 {
            x
        } else {
            join_texts(parts, sep) + sep + x
        },
{
    assert(parts.push(x).drop_last() =~= parts);
    assert(parts.push(x).last() == x);
}

/// Appends `sep`-joined renderings of `parts` to `out`.
pub fn push_joined(out: &mut String, parts: &Vec<String>, sep: &str)
    ensures
        final(out)@ == old(out)@ + join_texts(parts@.map_values(|p: String| p@), sep@),
{
    let ghost views = parts@.map_values(|p: String| p@);
    let n = parts.len();
    let mut i: usize = 0;
    while i < n
        invariant
            n == parts@.len(),
            i <= n,
            views == parts@.map_values(|p: String| p@),
            out@ == old(out)@ + join_texts(views.take(i as int), sep@),
        decreases n - i,
    {
        if i > 0 {
            out.append(sep);
        }
        out.append(parts[i].as_str());
        proof {
            assert(views.take(i as int).push(views[i as int]) =~= views.take(i + 1));
            lemma_join_push(views.take(i as int), sep@, views[i as int]);
        }
        i += 1;
    }
    proof {
        assert(views.take(n as int) =~= views);
    }
}

impl Operand {
    /// The listing form of this operand as text.
    pub fn to_text(&self) -> (r: String)
        ensures
            r@ == operand_text(self@),
    {
        match self {
            Operand::Temp(t) => t.clone(),
            Operand::Local(n) => {
                let mut out = String::new();
                push_char(&mut out, '%');
                out.append(n.as_str());
                proof {
                    assert(out@ =~= operand_text(self@));
                }
                out
            },
            Operand::ConstInt(i) => {
                let mut out = String::new();
                push_dec_i64(&mut out, *i);
                proof {
                    assert(out@ =~= operand_text(self@));
                }
                out
            },
            Operand::ConstFloat(f) => f.clone(),
            Operand::ConstString(s) => {
                let mut out = String::new();
                push_char(&mut out, '"');
                out.append(s.as_str());
                push_char(&mut out, '"');
                proof {
                    assert(out@ =~= operand_text(self@));
                }
                out
            },
        }
    }
}

/// The listing forms of `args`, in order, as fresh strings.
fn operand_text_vec(args: &Vec<Operand>) -> (r: Vec<String>)
    ensures
        r@.map_values(|p: String| p@) == operand_texts(operands_view(args@)),
{
    let n = args.len();
    let mut r: Vec<String> = Vec::new();
    let mut i: usize = 0;
    while i < n
        invariant
            n == args@.len(),
            i <= n,
            r@.len() == i,
            forall|k: int| 0 <= k < i ==> #[trigger] r@[k]@ == operand_text(args@[k]@),
        decreases n - i,
    {
        r.push(args[i].to_text());
        i += 1;
    }
    proof {
        assert(r@.map_values(|p: String| p@) =~= operand_texts(operands_view(args@)));
    }
    r
}

impl Instr {
    /// The debug-listing form of this instruction as text.
    pub fn to_text(&self) -> (r: String)
        ensures
            r@ == instr_text(self@),
    {
        let mut out = String::new();
        match self {
            Instr::StoreLocal { name, src } => {
                out.append("store %");
                out.append(name.as_str());
                out.append(" <- ");
                let src_text = src.to_text();
                out.append(src_text.as_str());
            },
            Instr::Call { dest, name, args } => {
                if let Some(d) = dest {
                    out.append(d.as_str());
                    out.append(" = ");
                }
                out.append("call ");
                out.append(name.as_str());
                out.append("(");
                let parts = operand_text_vec(args);
                push_joined(&mut out, &parts, ", ");
                out.append(")");
            },
            Instr::Return { src } => {
                match src {
                    Some(s) => {
                        out.append("return ");
                        let s_text = s.to_text();
                        out.append(s_text.as_str());
                    },
                    None => {
                        out.append("return");
                    },
                }
            },
            Instr::BinOp { dest, op, left, right } => {
                out.append(dest.as_str());
                out.append(" = ");
                let left_text = left.to_text();
                out.append(left_text.as_str());
                out.append(" ");
                out.append(op.as_str());
                out.append(" ");
                let right_text = right.to_text();
                out.append(right_text.as_str());
            },
        }
        proof {
            assert(out@ =~= instr_text(self@));
        }
        out
    }
}

impl FunctionIR {
    /// The debug-listing form of this IR unit as text.
    pub fn to_text(&self) -> (r: String)
        ensures
            r@ == function_ir_text(self@),
    {
        let mut out = String::new();
        out.append("func ");
        out.append(self.name.as_str());
        out.append("(");
        push_joined(&mut out, &self.params, ", ");
        out.append(") {\n");
        let ghost lines = self@.instrs.map_values(|i: InstrV| "  "@ + instr_text(i) + "\n"@);
        let ghost header = out@;
        let n = self.instrs.len();
        let mut i: usize = 0;
        while i < n
            invariant
                n == self.instrs@.len(),
                i <= n,
                lines == self@.instrs.map_values(|j: InstrV| "  "@ + instr_text(j) + "\n"@),
                out@ == header + join_texts(lines.take(i as int), Seq::empty()),
            decreases n - i,
        {
            out.append("  ");
            let line = self.instrs[i].to_text();
            out.append(line.as_str());
            out.append("\n");
            proof {
                assert(lines.take(i as int).push(lines[i as int]) =~= lines.take(i + 1));
                lemma_join_push(lines.take(i as int), Seq::empty(), lines[i as int]);
                assert(out@ =~= header + join_texts(lines.take(i + 1), Seq::empty()));
            }
            i += 1;
        }
        out.append("}");
        proof {
            assert(lines.take(n as int) =~= lines);
            assert(out@ =~= function_ir_text(self@));
        }
        out
    }
}

} // verus!
