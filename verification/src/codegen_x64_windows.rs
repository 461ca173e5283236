//! The x64 backend: emits assembly text for one IR unit under the Windows
//! x64 calling convention. The first four call arguments go in
//! `rcx, rdx, r8, r9`; further arguments are pushed on the stack in call
//! order (a documented simplification: native conventions push right to
//! left). Every value, parameters and temporaries included, lives in its
//! own 8-byte stack slot; there is no register residency across
//! instructions. A division sign-extends `rax` with `cqo`, which overwrites
//! `rdx`, so its divisor is staged in `r10` instead of the usual `rdx`.
//! The frame is 16-byte aligned with a 32-byte floor covering
//! the convention's register-spill area. String literals are pooled by
//! value under labels derived from a CRC-32 of their bytes (label collisions
//! between distinct strings are an accepted limitation). Loading a float
//! constant is not implemented: the backend emits a placeholder comment and
//! a zero, a known gap kept explicit rather than guessed at.

use vstd::prelude::*;

use crate::ir::{FunctionIR, FunctionIRV, Instr, InstrV, Operand, OperandV, join_texts,
    lemma_join_push};
use crate::text::{dec_int, dec_nat, push_char, push_dec_i64, push_dec_u64, str_eq};

verus! {

/// The checksum that names a pooled string literal.
pub uninterp spec fn crc32_of(s: Seq<char>) -> u32;

/// Relies on `crc32fast::hash`: the CRC-32 (IEEE) checksum of the string's
/// UTF-8 bytes, a function of the characters alone.
#[verifier::external_body]
fn crc32_str(s: &str) -> (r: u32)
    ensures
        r == crc32_of(s@),
{
    crc32fast::hash(s.as_bytes())
}

/// The pooled label of a string literal value.
pub open spec fn label_of(s: Seq<char>) -> Seq<char> {
    "LSTR_"@ + dec_nat(crc32_of(s) as nat)
}

/// The label under which a string literal is pooled.
pub fn find_label_for_string(s: &str) -> (r: String)
    ensures
        r@ == label_of(s@),
{
    let h = crc32_str(s);
    let mut out: String = "LSTR_".to_owned();
    push_dec_u64(&mut out, h as u64);
    out
}

// ---------------------------------------------------------------------
// Stack slots
// ---------------------------------------------------------------------

/// The mathematical value of a slot table.
pub open spec fn slots_view(v: Seq<(String, i32)>) -> Seq<(Seq<char>, int)> {
    v.map_values(|p: (String, i32)| (p.0@, p.1 as int))
}

/// The offset assigned to `name`: the first entry with that name, if any.
pub open spec fn slot_lookup(slots: Seq<(Seq<char>, int)>, name: Seq<char>) -> Option<int>
    decreases slots,
{
    if slots.len() == 0 {
        None
    } else if slots[0].0 == name {
        Some(slots[0].1)
    } else {
        slot_lookup(slots.drop_first(), name)
    }
}

/// Assigns the next 8-byte offset to `name` unless it already has one.
/// The accumulator is the table so far and the highest offset handed out.
pub open spec fn add_slot(acc: (Seq<(Seq<char>, int)>, int), name: Seq<char>) -> (
    Seq<(Seq<char>, int)>,
    int,
) {
    if slot_lookup(acc.0, name) is Some {
        acc
    } else {
        (acc.0.push((name, acc.1 + 8)), acc.1 + 8)
    }
}

/// Slot assignment for the parameters, in declaration order.
pub open spec fn slots_after_params(params: Seq<Seq<char>>, acc: (Seq<(Seq<char>, int)>, int)) -> (
    Seq<(Seq<char>, int)>,
    int,
)
    decreases params,
{
    if params.len() == 0 {
        acc
    } else {
        add_slot(slots_after_params(params.drop_last(), acc), params.last())
    }
}

/// The name an instruction defines, if any: a store target or a
/// destination temporary.
pub open spec fn instr_def_name(i: InstrV) -> Option<Seq<char>> {
    match i {
        InstrV::StoreLocal { name, src: _ } => Some(name),
        InstrV::BinOp { dest, op: _, left: _, right: _ } => Some(dest),
        InstrV::Call { dest, name: _, args: _ } => dest,
        InstrV::Return { src: _ } => None,
    }
}

/// Slot assignment for the instructions' definition points, in order.
pub open spec fn slots_after_instrs(instrs: Seq<InstrV>, acc: (Seq<(Seq<char>, int)>, int)) -> (
    Seq<(Seq<char>, int)>,
    int,
)
    decreases instrs,
{
    if instrs.len() == 0 {
        acc
    } else {
        let prev = slots_after_instrs(instrs.drop_last(), acc);
        match instr_def_name(instrs.last()) {
            Some(name) => add_slot(prev, name),
            None => prev,
        }
    }
}

/// The whole slot assignment of one IR unit: parameters first, in
/// declaration order, then each definition point in instruction order;
/// a name is never re-assigned. Returns the table and the total offset.
pub open spec fn slots_of(f: FunctionIRV) -> (Seq<(Seq<char>, int)>, int) {
    slots_after_instrs(f.instrs, slots_after_params(f.params, (Seq::empty(), 0)))
}

/// Shape of every slot accumulator: entry `k` holds offset `8 * (k + 1)`,
/// the running offset is 8 times the entry count, and names are distinct.
pub open spec fn slots_acc_wf(acc: (Seq<(Seq<char>, int)>, int)) -> bool {
    &&& acc.1 == 8 * acc.0.len()
    &&& forall|k: int| 0 <= k < acc.0.len() ==> (#[trigger] acc.0[k]).1 == 8 * (k + 1)
    &&& forall|i: int, j: int| 0 <= i < j < acc.0.len() ==> acc.0[i].0 != acc.0[j].0
}

/// A name is absent from a slot table exactly when no entry carries it.
pub proof fn lemma_slot_lookup_absent(slots: Seq<(Seq<char>, int)>, name: Seq<char>)
    ensures
        (slot_lookup(slots, name) is None) <==> (forall|k: int|
            0 <= k < slots.len() ==> (#[trigger] slots[k]).0 != name),
    decreases slots,
{
    if slots.len() > 0 {
        lemma_slot_lookup_absent(slots.drop_first(), name);
        assert forall|k: int|
            0 <= k < slots.drop_first().len() implies #[trigger] slots.drop_first()[k] == slots[k
            + 1] by {}
        if slot_lookup(slots, name) is None {
            assert forall|k: int| 0 <= k < slots.len() implies (#[trigger] slots[k]).0 != name by {
                if k > 0 {
                    assert(slots.drop_first()[k - 1] == slots[k]);
                }
            }
        }
        if forall|k: int| 0 <= k < slots.len() ==> (#[trigger] slots[k]).0 != name {
            assert forall|k: int|
                0 <= k < slots.drop_first().len() implies (#[trigger] slots.drop_first()[k]).0
                != name by {
                assert(slots.drop_first()[k] == slots[k + 1]);
            }
        }
    }
}

proof fn lemma_add_slot_wf(acc: (Seq<(Seq<char>, int)>, int), name: Seq<char>)
    requires
        slots_acc_wf(acc),
    ensures
        slots_acc_wf(add_slot(acc, name)),
        acc.0.len() <= add_slot(acc, name).0.len() <= acc.0.len() + 1,
{
    lemma_slot_lookup_absent(acc.0, name);
}

proof fn lemma_slots_after_params_wf(params: Seq<Seq<char>>, acc: (Seq<(Seq<char>, int)>, int))
    requires
        slots_acc_wf(acc),
    ensures
        slots_acc_wf(slots_after_params(params, acc)),
        acc.0.len() <= slots_after_params(params, acc).0.len() <= acc.0.len() + params.len(),
    decreases params,
{
    if params.len() > 0 {
        lemma_slots_after_params_wf(params.drop_last(), acc);
        lemma_add_slot_wf(slots_after_params(params.drop_last(), acc), params.last());
    }
}

proof fn lemma_slots_after_instrs_wf(instrs: Seq<InstrV>, acc: (Seq<(Seq<char>, int)>, int))
    requires
        slots_acc_wf(acc),
    ensures
        slots_acc_wf(slots_after_instrs(instrs, acc)),
        acc.0.len() <= slots_after_instrs(instrs, acc).0.len() <= acc.0.len() + instrs.len(),
    decreases instrs,
{
    if instrs.len() > 0 {
        lemma_slots_after_instrs_wf(instrs.drop_last(), acc);
        match instr_def_name(instrs.last()) {
            Some(name) => {
                lemma_add_slot_wf(slots_after_instrs(instrs.drop_last(), acc), name);
            },
            None => {},
        }
    }
}

/// Slot assignment is injective: within one function, distinct names never
/// receive the same stack offset; every offset is a positive multiple of 8
/// and the total offset is 8 bytes per assigned name.
pub proof fn lemma_slot_assignment_injective(f: FunctionIRV)
    ensures
        ({
            let (slots, off) = slots_of(f);
            &&& off == 8 * slots.len()
            &&& slots.len() <= f.params.len() + f.instrs.len()
            &&& forall|k: int| 0 <= k < slots.len() ==> (#[trigger] slots[k]).1 == 8 * (k + 1)
            &&& forall|i: int, j: int|
                0 <= i < j < slots.len() ==> slots[i].0 != slots[j].0 && slots[i].1 != slots[j].1
        }),
{
    lemma_slots_after_params_wf(f.params, (Seq::empty(), 0));
    lemma_slots_after_instrs_wf(f.instrs, slots_after_params(f.params, (Seq::empty(), 0)));
}

/// The frame size: the total offset rounded up to a multiple of 16, with a
/// floor of 32 bytes for the convention's register-spill area.
pub open spec fn frame_size_spec(off: int) -> int {
    let aligned = ((off + 15) / 16) * 16;
    if aligned < 32 {
        32
    } else {
        aligned
    }
}

/// The frame size is 16-byte aligned, at least 32 bytes, and holds the
/// whole frame.
pub proof fn lemma_frame_size(off: int)
    requires
        0 <= off,
    ensures
        frame_size_spec(off) % 16 == 0,
        frame_size_spec(off) >= 32,
        frame_size_spec(off) >= off,
{
    assert(((off + 15) / 16) * 16 >= off && (((off + 15) / 16) * 16) % 16 == 0) by (nonlinear_arith)
        requires 0 <= off;
}

// ---------------------------------------------------------------------
// String pool
// ---------------------------------------------------------------------

/// The mathematical value of a string pool.
pub open spec fn pool_view(v: Seq<(String, String)>) -> Seq<(Seq<char>, Seq<char>)> {
    v.map_values(|p: (String, String)| (p.0@, p.1@))
}

/// Whether a string value is already pooled.
pub open spec fn pool_has(pool: Seq<(Seq<char>, Seq<char>)>, s: Seq<char>) -> bool {
    exists|k: int| 0 <= k < pool.len() && (#[trigger] pool[k]).0 == s
}

/// Pools a string value: by value, so a value already present is not
/// pooled again.
pub open spec fn add_pooled(pool: Seq<(Seq<char>, Seq<char>)>, s: Seq<char>) -> Seq<
    (Seq<char>, Seq<char>),
> {
    if pool_has(pool, s) {
        pool
    } else {
        pool.push((s, label_of(s)))
    }
}

/// Pools an operand if it is a string constant.
pub open spec fn pool_operand(pool: Seq<(Seq<char>, Seq<char>)>, o: OperandV) -> Seq<
    (Seq<char>, Seq<char>),
> {
    match o {
        OperandV::ConstString(s) => add_pooled(pool, s),
        _ => pool,
    }
}

/// Pools a call's arguments, left to right.
pub open spec fn pool_args(pool: Seq<(Seq<char>, Seq<char>)>, args: Seq<OperandV>) -> Seq<
    (Seq<char>, Seq<char>),
>
    decreases args,
{
    if args.len() == 0 {
        pool
    } else {
        pool_operand(pool_args(pool, args.drop_last()), args.last())
    }
}

/// Pools the string constants one instruction reaches: every call argument
/// and both operands of a binary operation.
pub open spec fn pool_instr(pool: Seq<(Seq<char>, Seq<char>)>, i: InstrV) -> Seq<
    (Seq<char>, Seq<char>),
> {
    match i {
        InstrV::Call { dest: _, name: _, args } => pool_args(pool, args),
        InstrV::BinOp { dest: _, op: _, left, right } => pool_operand(pool_operand(pool, left),
            right),
        _ => pool,
    }
}

/// Pools the string constants of an instruction sequence, in order.
pub open spec fn pool_of_instrs(instrs: Seq<InstrV>, pool: Seq<(Seq<char>, Seq<char>)>) -> Seq<
    (Seq<char>, Seq<char>),
>
    decreases instrs,
{
    if instrs.len() == 0 {
        pool
    } else {
        pool_instr(pool_of_instrs(instrs.drop_last(), pool), instrs.last())
    }
}

/// The string pool of one IR unit, in first-seen order.
pub open spec fn pool_of(f: FunctionIRV) -> Seq<(Seq<char>, Seq<char>)> {
    pool_of_instrs(f.instrs, Seq::empty())
}

/// Shape of every pool: values are pairwise distinct and each entry's label
/// derives from its value.
pub open spec fn pool_wf(pool: Seq<(Seq<char>, Seq<char>)>) -> bool {
    &&& forall|i: int, j: int| 0 <= i < j < pool.len() ==> pool[i].0 != pool[j].0
    &&& forall|k: int| 0 <= k < pool.len() ==> (#[trigger] pool[k]).1 == label_of(pool[k].0)
}

proof fn lemma_pool_step_wf(pool: Seq<(Seq<char>, Seq<char>)>, o: OperandV)
    requires
        pool_wf(pool),
    ensures
        pool_wf(pool_operand(pool, o)),
{
}

proof fn lemma_pool_args_wf(pool: Seq<(Seq<char>, Seq<char>)>, args: Seq<OperandV>)
    requires
        pool_wf(pool),
    ensures
        pool_wf(pool_args(pool, args)),
    decreases args,
{
    if args.len() > 0 {
        lemma_pool_args_wf(pool, args.drop_last());
        lemma_pool_step_wf(pool_args(pool, args.drop_last()), args.last());
    }
}

proof fn lemma_pool_instr_wf(pool: Seq<(Seq<char>, Seq<char>)>, i: InstrV)
    requires
        pool_wf(pool),
    ensures
        pool_wf(pool_instr(pool, i)),
{
    match i {
        InstrV::Call { dest: _, name: _, args } => {
            lemma_pool_args_wf(pool, args);
        },
        InstrV::BinOp { dest: _, op: _, left, right } => {
            lemma_pool_step_wf(pool, left);
            lemma_pool_step_wf(pool_operand(pool, left), right);
        },
        _ => {},
    }
}

proof fn lemma_pool_of_instrs_wf(instrs: Seq<InstrV>, pool: Seq<(Seq<char>, Seq<char>)>)
    requires
        pool_wf(pool),
    ensures
        pool_wf(pool_of_instrs(instrs, pool)),
    decreases instrs,
{
    if instrs.len() > 0 {
        lemma_pool_of_instrs_wf(instrs.drop_last(), pool);
        lemma_pool_instr_wf(pool_of_instrs(instrs.drop_last(), pool), instrs.last());
    }
}

/// String pooling is by value and idempotent on value: the pool of one IR
/// unit holds no two entries with the same string value, so two occurrences
/// of the identical literal share one label and one data-section entry; and
/// every entry's label derives from its value.
pub proof fn lemma_string_pool_by_value(f: FunctionIRV)
    ensures
        pool_wf(pool_of(f)),
{
    lemma_pool_of_instrs_wf(f.instrs, Seq::empty());
}

// ---------------------------------------------------------------------
// Emission text
// ---------------------------------------------------------------------

/// The offset a name resolves to; only read under the well-formedness
/// requirement that the name has a slot.
pub open spec fn slot_off(slots: Seq<(Seq<char>, int)>, name: Seq<char>) -> int {
    match slot_lookup(slots, name) {
        Some(o) => o,
        None => 0,
    }
}

/// Text that loads an operand into `rax`.
pub open spec fn load_rax_text(o: OperandV, slots: Seq<(Seq<char>, int)>) -> Seq<char> {
    match o {
        OperandV::Temp(t) => "mov rax, [rbp-"@ + dec_int(slot_off(slots, t)) + "]\n"@,
        OperandV::Local(n) => "mov rax, [rbp-"@ + dec_int(slot_off(slots, n)) + "]\n"@,
        OperandV::ConstInt(i) => "mov rax, "@ + dec_int(i) + "\n"@,
        OperandV::ConstFloat(f) => "; load float "@ + f
            + " into rax (not implemented)\nmov rax, 0\n"@,
        OperandV::ConstString(s) => "lea rax, [rel "@ + label_of(s) + "] ; string "@ + s + "\n"@,
    }
}

/// Text that loads an operand into the named register.
pub open spec fn load_reg_text(o: OperandV, slots: Seq<(Seq<char>, int)>, reg: Seq<char>) -> Seq<
    char,
> {
    match o {
        OperandV::Temp(t) => "mov "@ + reg + ", [rbp-"@ + dec_int(slot_off(slots, t)) + "]\n"@,
        OperandV::Local(n) => "mov "@ + reg + ", [rbp-"@ + dec_int(slot_off(slots, n)) + "]\n"@,
        OperandV::ConstInt(i) => "mov "@ + reg + ", "@ + dec_int(i) + "\n"@,
        OperandV::ConstFloat(f) => "; mov "@ + reg + " <- float "@ + f + " (not implemented)\nmov "@
            + reg + ", 0\n"@,
        OperandV::ConstString(s) => "lea "@ + reg + ", [rel "@ + label_of(s) + "] ; string "@ + s
            + "\n"@,
    }
}

/// Text that stores `rax` into a name's slot.
pub open spec fn store_rax_text(slots: Seq<(Seq<char>, int)>, name: Seq<char>) -> Seq<char> {
    "mov [rbp-"@ + dec_int(slot_off(slots, name)) + "], rax\n"@
}

/// The register the right operand of a binary operation is staged in.
/// Division stages it in `r10`: the divide needs `cqo` to sign-extend
/// `rax` into `rdx:rax` first, which overwrites `rdx`, so the divisor
/// must sit in a register `cqo` leaves alone.
pub open spec fn binop_reg(op: Seq<char>) -> Seq<char> {
    if op == "/"@ {
        "r10"@
    } else {
        "rdx"@
    }
}

/// The instruction applying a binary operator to `rax` and the staged
/// right operand; an unrecognized operator symbol passes through as is.
pub open spec fn asmop_text(op: Seq<char>) -> Seq<char> {
    if op == "+"@ {
        "add rax, rdx"@
    } else if op == "-"@ {
        "sub rax, rdx"@
    } else if op == "*"@ {
        "imul rax, rdx"@
    } else if op == "/"@ {
        "cqo\n    idiv r10"@
    } else {
        op
    }
}

/// The argument register for position `k` of a call.
pub open spec fn reg_name(k: int) -> Seq<char> {
    if k == 0 {
        "rcx"@
    } else if k == 1 {
        "rdx"@
    } else if k == 2 {
        "r8"@
    } else if k == 3 {
        "r9"@
    } else {
        Seq::empty()
    }
}

/// Text that moves argument `k` into place: one of the four argument
/// registers, or a stack push.
pub open spec fn call_arg_text(args: Seq<OperandV>, slots: Seq<(Seq<char>, int)>, k: int) -> Seq<
    char,
> {
    if k < 4 {
        load_reg_text(args[k], slots, reg_name(k))
    } else {
        load_rax_text(args[k], slots) + "push rax\n"@
    }
}

/// Text that moves the first `i` arguments of a call into place, in call
/// order.
pub open spec fn call_args_text(args: Seq<OperandV>, slots: Seq<(Seq<char>, int)>, i: int) -> Seq<
    char,
>
    decreases i,
{
    if i <= 0 {
        Seq::empty()
    } else {
        call_args_text(args, slots, i - 1) + call_arg_text(args, slots, i - 1)
    }
}

/// The self-contained text of one instruction: load operands into scratch
/// registers, compute, store to the destination's slot.
pub open spec fn instr_x64_text(i: InstrV, slots: Seq<(Seq<char>, int)>) -> Seq<char> {
    match i {
        InstrV::StoreLocal { name, src } => load_rax_text(src, slots) + store_rax_text(slots, name),
        InstrV::BinOp { dest, op, left, right } => load_rax_text(left, slots) + load_reg_text(
            right, slots, binop_reg(op)) + "    "@ + asmop_text(op) + "\n"@ + store_rax_text(
            slots, dest),
        InstrV::Call { dest, name, args } => call_args_text(args, slots, args.len() as int)
            + "call "@ + name + "\n"@ + match dest {
            Some(d) => store_rax_text(slots, d),
            None => Seq::empty(),
        },
        InstrV::Return { src } => (match src {
            Some(s) => load_rax_text(s, slots),
            None => Seq::empty(),
        }) + "mov rsp, rbp\npop rbp\nret\n"@,
    }
}

/// A string value with each quote escaped for a data directive.
pub open spec fn escape_text(s: Seq<char>) -> Seq<char>
    decreases s,
{
    if s.len() == 0 {
        Seq::empty()
    } else {
        escape_text(s.drop_last()) + if s.last() == '"' {
            "\\\""@
        } else {
            seq![s.last()]
        }
    }
}

/// One data-section directive: the label and the null-terminated bytes.
pub open spec fn data_entry_text(e: (Seq<char>, Seq<char>)) -> Seq<char> {
    e.1 + ": db \""@ + escape_text(e.0) + "\",0\n"@
}

/// The data section: one directive per pooled string, in pool order; empty
/// when nothing was pooled.
pub open spec fn data_text(pool: Seq<(Seq<char>, Seq<char>)>) -> Seq<char> {
    if pool.len() == 0 {
        Seq::empty()
    } else {
        "\n; data section\n"@ + join_texts(pool.map_values(|e: (Seq<char>, Seq<char>)|
            data_entry_text(e)), Seq::empty())
    }
}

/// Whether an operand's slot lookup succeeds where emission needs it.
pub open spec fn operand_ok(o: OperandV, slots: Seq<(Seq<char>, int)>) -> bool {
    match o {
        OperandV::Temp(t) => slot_lookup(slots, t) is Some,
        OperandV::Local(n) => slot_lookup(slots, n) is Some,
        _ => true,
    }
}

/// Whether every name an instruction reads or defines has a slot. Slot
/// assignment gives every definition point a slot, so for IR produced by
/// lowering from an analyzed program this asks only that reads refer to
/// parameters or defined names.
pub open spec fn instr_ok(i: InstrV, slots: Seq<(Seq<char>, int)>) -> bool {
    match i {
        InstrV::StoreLocal { name, src } => operand_ok(src, slots) && slot_lookup(slots, name)
            is Some,
        InstrV::BinOp { dest, op: _, left, right } => operand_ok(left, slots) && operand_ok(right,
            slots) && slot_lookup(slots, dest) is Some,
        InstrV::Call { dest, name: _, args } => (forall|k: int|
            0 <= k < args.len() ==> operand_ok(#[trigger] args[k], slots)) && match dest {
            Some(d) => slot_lookup(slots, d) is Some,
            None => true,
        },
        InstrV::Return { src } => match src {
            Some(s) => operand_ok(s, slots),
            None => true,
        },
    }
}

/// Whether an IR unit's operand names all resolve to slots: the
/// well-formedness that emission relies on. Lowering a semantically valid
/// program guarantees it; an unresolved name would be a contract violation
/// between the passes.
pub open spec fn wf_x64(f: FunctionIRV) -> bool {
    forall|k: int| 0 <= k < f.instrs.len() ==> instr_ok(#[trigger] f.instrs[k], slots_of(f).0)
}

/// The whole assembly text of one IR unit: prologue, one self-contained
/// block per instruction, a frame-restoring return as a fall-through safety
/// net, then the data section.
pub open spec fn x64_text(f: FunctionIRV) -> Seq<char> {
    let (slots, off) = slots_of(f);
    "; function "@ + f.name + "\npush rbp\nmov rbp, rsp\nsub rsp, "@ + dec_int(frame_size_spec(off))
        + "\n"@ + join_texts(f.instrs.map_values(|i: InstrV| instr_x64_text(i, slots)),
        Seq::empty()) + "mov rsp, rbp\npop rbp\nret\n"@ + data_text(pool_of(f))
}

// ---------------------------------------------------------------------
// Executable passes
// ---------------------------------------------------------------------

/// The offset assigned to `name`, if any.
fn slot_get(slots: &Vec<(String, i32)>, name: &str) -> (r: Option<i32>)
    ensures
        match r {
            Some(o) => slot_lookup(slots_view(slots@), name@) == Some(o as int),
            None => slot_lookup(slots_view(slots@), name@) is None,
        },
{
    let ghost view = slots_view(slots@);
    proof {
        assert(view.skip(0) =~= view);
    }
    let n = slots.len();
    let mut i: usize = 0;
    while i < n
        invariant
            n == slots@.len(),
            i <= n,
            view == slots_view(slots@),
            slot_lookup(view, name@) == slot_lookup(view.skip(i as int), name@),
        decreases n - i,
    {
        proof {
            assert(view.skip(i as int)[0] == view[i as int]);
            assert(view.skip(i as int).drop_first() =~= view.skip(i + 1));
        }
        if str_eq(slots[i].0.as_str(), name) {
            return Some(slots[i].1);
        }
        i += 1;
    }
    proof {
        assert(view.skip(n as int) =~= Seq::<(Seq<char>, int)>::empty());
    }
    None
}

/// Assigns stack slots for one IR unit: parameters first, then each
/// definition point, 8 bytes apart in first-seen order. Returns the table
/// and the total offset. The bound keeps the offsets inside `i32`.
pub fn assign_slots(f: &FunctionIR) -> (r: (Vec<(String, i32)>, i32))
    requires
        8 * (f.params@.len() + f.instrs@.len()) <= i32::MAX,
    ensures
        (slots_view(r.0@), r.1 as int) == slots_of(f@),
{
    let ghost acc0: (Seq<(Seq<char>, int)>, int) = (Seq::empty(), 0);
    let mut slots: Vec<(String, i32)> = Vec::new();
    let mut offset: i32 = 0;
    proof {
        assert(slots_view(slots@) =~= acc0.0);
        assert(acc0.0.len() == 0);
        assert(slots_acc_wf(acc0));
    }
    let np = f.params.len();
    let mut pi: usize = 0;
    while pi < np
        invariant
            np == f.params@.len(),
            8 * (f.params@.len() + f.instrs@.len()) <= i32::MAX,
            pi <= np,
            acc0.0 == Seq::<(Seq<char>, int)>::empty() && acc0.1 == 0,
            (slots_view(slots@), offset as int) == slots_after_params(f@.params.take(pi as int),
                acc0),
        decreases np - pi,
    {
        proof {
            assert(acc0.0.len() == 0);
            assert(slots_acc_wf(acc0));
            lemma_slots_after_params_wf(f@.params.take(pi as int), acc0);
            assert(f@.params.take(pi + 1).drop_last() =~= f@.params.take(pi as int));
            assert(f@.params.take(pi + 1).last() == f@.params[pi as int]);
        }
        let ghost before = slots_view(slots@);
        if slot_get(&slots, f.params[pi].as_str()).is_none() {
            offset = offset + 8;
            slots.push((f.params[pi].clone(), offset));
            proof {
                assert(slots_view(slots@) =~= before.push((f@.params[pi as int], offset as int)));
            }
        }
        pi += 1;
    }
    proof {
        assert(f@.params.take(np as int) =~= f@.params);
    }
    let ghost acc1 = slots_after_params(f@.params, acc0);
    let ni = f.instrs.len();
    let mut ii: usize = 0;
    while ii < ni
        invariant
            ni == f.instrs@.len(),
            np == f.params@.len(),
            8 * (f.params@.len() + f.instrs@.len()) <= i32::MAX,
            ii <= ni,
            acc0.0 == Seq::<(Seq<char>, int)>::empty() && acc0.1 == 0,
            acc1 == slots_after_params(f@.params, acc0),
            (slots_view(slots@), offset as int) == slots_after_instrs(f@.instrs.take(ii as int),
                acc1),
        decreases ni - ii,
    {
        proof {
            assert(acc0.0.len() == 0);
            assert(slots_acc_wf(acc0));
            lemma_slots_after_params_wf(f@.params, acc0);
            lemma_slots_after_instrs_wf(f@.instrs.take(ii as int), acc1);
            assert(f@.instrs.take(ii + 1).drop_last() =~= f@.instrs.take(ii as int));
            assert(f@.instrs.take(ii + 1).last() == f@.instrs[ii as int]);
        }
        let ghost before = slots_view(slots@);
        let def_name: Option<&String> = match &f.instrs[ii] {
            Instr::StoreLocal { name, src: _ } => Some(name),
            Instr::BinOp { dest, op: _, left: _, right: _ } => Some(dest),
            Instr::Call { dest, name: _, args: _ } => match dest {
                Some(d) => Some(d),
                None => None,
            },
            Instr::Return { src: _ } => None,
        };
        match def_name {
            Some(name) => {
                if slot_get(&slots, name.as_str()).is_none() {
                    offset = offset + 8;
                    slots.push((name.clone(), offset));
                    proof {
                        assert(slots_view(slots@) =~= before.push((name@, offset as int)));
                    }
                }
            },
            None => {},
        }
        ii += 1;
    }
    proof {
        assert(f@.instrs.take(ni as int) =~= f@.instrs);
    }
    (slots, offset)
}

/// Whether a string value is already pooled.
fn pool_contains(pool: &Vec<(String, String)>, s: &str) -> (r: bool)
    ensures
        r == pool_has(pool_view(pool@), s@),
{
    let ghost view = pool_view(pool@);
    let n = pool.len();
    let mut i: usize = 0;
    while i < n
        invariant
            n == pool@.len(),
            i <= n,
            view == pool_view(pool@),
            forall|k: int| 0 <= k < i ==> (#[trigger] view[k]).0 != s@,
        decreases n - i,
    {
        if str_eq(pool[i].0.as_str(), s) {
            proof {
                assert((view[i as int]).0 == s@);
            }
            return true;
        }
        i += 1;
    }
    false
}

/// Pools one operand if it is a string constant.
fn pool_operand_exec(pool: &mut Vec<(String, String)>, o: &Operand)
    ensures
        pool_view(final(pool)@) == pool_operand(pool_view(old(pool)@), o@),
{
    let ghost before = pool_view(pool@);
    match o {
        Operand::ConstString(s) => {
            if !pool_contains(pool, s.as_str()) {
                let lbl = find_label_for_string(s.as_str());
                pool.push((s.clone(), lbl));
                proof {
                    assert(pool_view(pool@) =~= before.push((s@, label_of(s@))));
                }
            }
        },
        _ => {},
    }
}

/// Collects the string pool of one IR unit: every call argument and every
/// binary operand that is a string constant, pooled by value in first-seen
/// order, each under its checksum-derived label.
pub fn collect_strings(f: &FunctionIR) -> (r: Vec<(String, String)>)
    ensures
        pool_view(r@) == pool_of(f@),
{
    let mut pool: Vec<(String, String)> = Vec::new();
    proof {
        assert(pool_view(pool@) =~= Seq::<(Seq<char>, Seq<char>)>::empty());
    }
    let ni = f.instrs.len();
    let mut ii: usize = 0;
    while ii < ni
        invariant
            ni == f.instrs@.len(),
            ii <= ni,
            pool_view(pool@) == pool_of_instrs(f@.instrs.take(ii as int), Seq::empty()),
        decreases ni - ii,
    {
        proof {
            assert(f@.instrs.take(ii + 1).drop_last() =~= f@.instrs.take(ii as int));
            assert(f@.instrs.take(ii + 1).last() == f@.instrs[ii as int]);
        }
        match &f.instrs[ii] {
            Instr::Call { dest: _, name: _, args } => {
                let ghost before = pool_view(pool@);
                let na = args.len();
                let mut ai: usize = 0;
                while ai < na
                    invariant
                        na == args@.len(),
                        ai <= na,
                        pool_view(pool@) == pool_args(before, crate::ir::operands_view(
                            args@).take(ai as int)),
                    decreases na - ai,
                {
                    proof {
                        let ops = crate::ir::operands_view(args@);
                        assert(ops.take(ai + 1).drop_last() =~= ops.take(ai as int));
                        assert(ops.take(ai + 1).last() == ops[ai as int]);
                    }
                    pool_operand_exec(&mut pool, &args[ai]);
                    ai += 1;
                }
                proof {
                    assert(crate::ir::operands_view(args@).take(na as int)
                        =~= crate::ir::operands_view(args@));
                }
            },
            Instr::BinOp { dest: _, op: _, left, right } => {
                pool_operand_exec(&mut pool, left);
                pool_operand_exec(&mut pool, right);
            },
            _ => {},
        }
        ii += 1;
    }
    proof {
        assert(f@.instrs.take(ni as int) =~= f@.instrs);
    }
    pool
}

/// The frame size for a total slot offset: 16-byte aligned with a 32-byte
/// floor.
pub fn frame_size(offset: i32) -> (r: i32)
    requires
        0 <= offset,
        offset + 15 <= i32::MAX,
    ensures
        r as int == frame_size_spec(offset as int),
        r % 16 == 0,
        r >= 32,
        r >= offset,
{
    proof {
        lemma_frame_size(offset as int);
        assert(((offset as int + 15) / 16) * 16 <= offset as int + 15) by (nonlinear_arith)
            requires 0 <= offset as int;
    }
    let mut size: i32 = ((offset + 15) / 16) * 16;
    if size < 32 {
        size = 32;
    }
    size
}

/// Appends the text that loads `op` into `rax`.
fn emit_load_operand(out: &mut String, op: &Operand, slots: &Vec<(String, i32)>)
    requires
        operand_ok(op@, slots_view(slots@)),
    ensures
        final(out)@ == old(out)@ + load_rax_text(op@, slots_view(slots@)),
{
    match op {
        Operand::Temp(t) => {
            let off = slot_get(slots, t.as_str());
            out.append("mov rax, [rbp-");
            push_dec_i64(out, off.unwrap() as i64);
            out.append("]\n");
        },
        Operand::Local(n) => {
            let off = slot_get(slots, n.as_str());
            out.append("mov rax, [rbp-");
            push_dec_i64(out, off.unwrap() as i64);
            out.append("]\n");
        },
        Operand::ConstInt(i) => {
            out.append("mov rax, ");
            push_dec_i64(out, *i);
            out.append("\n");
        },
        Operand::ConstFloat(f) => {
            out.append("; load float ");
            out.append(f.as_str());
            out.append(" into rax (not implemented)\nmov rax, 0\n");
        },
        Operand::ConstString(s) => {
            out.append("lea rax, [rel ");
            let lbl = find_label_for_string(s.as_str());
            out.append(lbl.as_str());
            out.append("] ; string ");
            out.append(s.as_str());
            out.append("\n");
        },
    }
    proof {
        assert(out@ =~= old(out)@ + load_rax_text(op@, slots_view(slots@)));
    }
}

/// Appends the text that loads `op` into the named register.
fn emit_load_operand_to_reg(out: &mut String, op: &Operand, slots: &Vec<(String, i32)>, reg: &str)
    requires
        operand_ok(op@, slots_view(slots@)),
    ensures
        final(out)@ == old(out)@ + load_reg_text(op@, slots_view(slots@), reg@),
{
    match op {
        Operand::Temp(t) => {
            let off = slot_get(slots, t.as_str());
            out.append("mov ");
            out.append(reg);
            out.append(", [rbp-");
            push_dec_i64(out, off.unwrap() as i64);
            out.append("]\n");
        },
        Operand::Local(n) => {
            let off = slot_get(slots, n.as_str());
            out.append("mov ");
            out.append(reg);
            out.append(", [rbp-");
            push_dec_i64(out, off.unwrap() as i64);
            out.append("]\n");
        },
        Operand::ConstInt(i) => {
            out.append("mov ");
            out.append(reg);
            out.append(", ");
            push_dec_i64(out, *i);
            out.append("\n");
        },
        Operand::ConstFloat(f) => {
            out.append("; mov ");
            out.append(reg);
            out.append(" <- float ");
            out.append(f.as_str());
            out.append(" (not implemented)\nmov ");
            out.append(reg);
            out.append(", 0\n");
        },
        Operand::ConstString(s) => {
            out.append("lea ");
            out.append(reg);
            out.append(", [rel ");
            let lbl = find_label_for_string(s.as_str());
            out.append(lbl.as_str());
            out.append("] ; string ");
            out.append(s.as_str());
            out.append("\n");
        },
    }
    proof {
        assert(out@ =~= old(out)@ + load_reg_text(op@, slots_view(slots@), reg@));
    }
}

/// Appends the text that stores `rax` into `name`'s slot.
fn emit_store_rax(out: &mut String, name: &str, slots: &Vec<(String, i32)>)
    requires
        slot_lookup(slots_view(slots@), name@) is Some,
    ensures
        final(out)@ == old(out)@ + store_rax_text(slots_view(slots@), name@),
{
    let off = slot_get(slots, name);
    out.append("mov [rbp-");
    push_dec_i64(out, off.unwrap() as i64);
    out.append("], rax\n");
    proof {
        assert(out@ =~= old(out)@ + store_rax_text(slots_view(slots@), name@));
    }
}

/// Appends a string value with each quote escaped.
fn push_escaped(out: &mut String, s: &str)
    ensures
        final(out)@ == old(out)@ + escape_text(s@),
{
    let n = s.unicode_len();
    let mut i: usize = 0;
    while i < n
        invariant
            n == s@.len(),
            i <= n,
            out@ == old(out)@ + escape_text(s@.take(i as int)),
        decreases n - i,
    {
        let c = s.get_char(i);
        if c == '"' {
            out.append("\\\"");
        } else {
            push_char(out, c);
        }
        proof {
            assert(s@.take(i + 1).drop_last() =~= s@.take(i as int));
            assert(s@.take(i + 1).last() == s@[i as int]);
            assert(out@ =~= old(out)@ + escape_text(s@.take(i + 1)));
        }
        i += 1;
    }
    proof {
        assert(s@.take(n as int) =~= s@);
    }
}

/// Emits x64 assembly for one IR unit under the Windows x64 calling
/// convention. Requires that every name the instructions reference has a
/// slot (lowering a semantically valid program guarantees it) and that the
/// frame fits the offset arithmetic.
#[verifier::rlimit(100)]
pub fn emit_function(f: &FunctionIR) -> (r: String)
    requires
        wf_x64(f@),
        8 * (f.params@.len() + f.instrs@.len()) <= i32::MAX - 16,
    ensures
        r@ == x64_text(f@),
{
    let pool = collect_strings(f);
    let (slots, offset) = assign_slots(f);
    proof {
        lemma_slot_assignment_injective(f@);
    }
    let frame = frame_size(offset);

    let mut out = String::new();
    out.append("; function ");
    out.append(f.name.as_str());
    out.append("\npush rbp\nmov rbp, rsp\nsub rsp, ");
    push_dec_i64(&mut out, frame as i64);
    out.append("\n");

    let ghost sv = slots_view(slots@);
    let ghost blocks = f@.instrs.map_values(|i: InstrV| instr_x64_text(i, sv));
    let ghost header = out@;
    let ni = f.instrs.len();
    let mut ii: usize = 0;
    while ii < ni
        invariant
            ni == f.instrs@.len(),
            ii <= ni,
            wf_x64(f@),
            sv == slots_view(slots@),
            sv == slots_of(f@).0,
            blocks == f@.instrs.map_values(|i: InstrV| instr_x64_text(i, sv)),
            out@ == header + join_texts(blocks.take(ii as int), Seq::empty()),
        decreases ni - ii,
    {
        let ghost block_start = out@;
        proof {
            assert(instr_ok(f@.instrs[ii as int], sv));
        }
        match &f.instrs[ii] {
            Instr::StoreLocal { name, src } => {
                emit_load_operand(&mut out, src, &slots);
                emit_store_rax(&mut out, name.as_str(), &slots);
            },
            Instr::BinOp { dest, op, left, right } => {
                emit_load_operand(&mut out, left, &slots);
                if str_eq(op.as_str(), "/") {
                    emit_load_operand_to_reg(&mut out, right, &slots, "r10");
                } else {
                    emit_load_operand_to_reg(&mut out, right, &slots, "rdx");
                }
                out.append("    ");
                if str_eq(op.as_str(), "+") {
                    out.append("add rax, rdx");
                } else if str_eq(op.as_str(), "-") {
                    out.append("sub rax, rdx");
                } else if str_eq(op.as_str(), "*") {
                    out.append("imul rax, rdx");
                } else if str_eq(op.as_str(), "/") {
                    out.append("cqo\n    idiv r10");
                } else {
                    out.append(op.as_str());
                }
                out.append("\n");
                emit_store_rax(&mut out, dest.as_str(), &slots);
            },
            Instr::Call { dest, name, args } => {
                let ghost ops = crate::ir::operands_view(args@);
                proof {
                    assert(f@.instrs[ii as int]->Call_args == ops);
                }
                let ghost call_start = out@;
                let na = args.len();
                let mut ai: usize = 0;
                while ai < na
                    invariant
                        na == args@.len(),
                        ai <= na,
                        ops == crate::ir::operands_view(args@),
                        sv == slots_view(slots@),
                        forall|k: int| 0 <= k < ops.len() ==> operand_ok(#[trigger] ops[k], sv),
                        out@ == call_start + call_args_text(ops, sv, ai as int),
                    decreases na - ai,
                {
                    proof {
                        assert(ops[ai as int] == args@[ai as int]@);
                        assert(operand_ok(ops[ai as int], sv));
                    }
                    if ai == 0 {
                        emit_load_operand_to_reg(&mut out, &args[ai], &slots, "rcx");
                    } else if ai == 1 {
                        emit_load_operand_to_reg(&mut out, &args[ai], &slots, "rdx");
                    } else if ai == 2 {
                        emit_load_operand_to_reg(&mut out, &args[ai], &slots, "r8");
                    } else if ai == 3 {
                        emit_load_operand_to_reg(&mut out, &args[ai], &slots, "r9");
                    } else {
                        emit_load_operand(&mut out, &args[ai], &slots);
                        out.append("push rax\n");
                    }
                    proof {
                        assert(out@ =~= call_start + call_args_text(ops, sv, ai + 1));
                    }
                    ai += 1;
                }
                out.append("call ");
                out.append(name.as_str());
                out.append("\n");
                match dest {
                    Some(d) => {
                        emit_store_rax(&mut out, d.as_str(), &slots);
                    },
                    None => {},
                }
            },
            Instr::Return { src } => {
                match src {
                    Some(s) => {
                        emit_load_operand(&mut out, s, &slots);
                    },
                    None => {},
                }
                out.append("mov rsp, rbp\npop rbp\nret\n");
            },
        }
        proof {
            assert(out@ =~= block_start + instr_x64_text(f@.instrs[ii as int], sv));
            assert(blocks.take(ii as int).push(blocks[ii as int]) =~= blocks.take(ii + 1));
            lemma_join_push(blocks.take(ii as int), Seq::empty(), blocks[ii as int]);
            assert(out@ =~= header + join_texts(blocks.take(ii + 1), Seq::empty()));
        }
        ii += 1;
    }
    proof {
        assert(blocks.take(ni as int) =~= blocks);
    }
    out.append("mov rsp, rbp\npop rbp\nret\n");

    if !pool.is_empty() {
        out.append("\n; data section\n");
        let ghost entries = pool_view(pool@).map_values(|e: (Seq<char>, Seq<char>)|
            data_entry_text(e));
        let ghost data_start = out@;
        let npool = pool.len();
        let mut di: usize = 0;
        while di < npool
            invariant
                npool == pool@.len(),
                di <= npool,
                entries == pool_view(pool@).map_values(|e: (Seq<char>, Seq<char>)|
                    data_entry_text(e)),
                out@ == data_start + join_texts(entries.take(di as int), Seq::empty()),
            decreases npool - di,
        {
            out.append(pool[di].1.as_str());
            out.append(": db \"");
            push_escaped(&mut out, pool[di].0.as_str());
            out.append("\",0\n");
            proof {
                assert(entries.take(di as int).push(entries[di as int]) =~= entries.take(di + 1));
                lemma_join_push(entries.take(di as int), Seq::empty(), entries[di as int]);
                assert(out@ =~= data_start + join_texts(entries.take(di + 1), Seq::empty()));
            }
            di += 1;
        }
        proof {
            assert(entries.take(npool as int) =~= entries);
            assert(out@ =~= x64_text(f@));
        }
    } else {
        proof {
            assert(out@ =~= x64_text(f@));
        }
    }
    out
}

} // verus!
