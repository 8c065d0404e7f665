//! The compiler: a block list under construction, the straight-line
//! instruction dispatch, and the structured-control sub-compilers.
//!
//! Compilation is a single depth-first pass over the operation list. Straight
//! line operations append instructions to the current (last) block; an `If`
//! or `For` spawns child blocks inline, links them with branches and jumps,
//! and leaves a fresh continuation block current. A `break` first becomes an
//! abstract `Break` instruction carrying the innermost loop's label; once
//! that loop's after-block exists, every such instruction is rewritten to a
//! concrete jump there.
//!
//! Every exported compilation step is specified exactly by a spec-level
//! state transition over [`CompilerView`], so that the shape of the emitted
//! program is pinned down completely.

use vstd::prelude::*;
use crate::assemble::{
    AssembleError, AssemblyCode, MachineCode, code_issue, flat_len, flat_resolved,
    resolved_labels,
};
use crate::field::{FIELD_MODULUS, fmul, is_felt, felt_mul};
use crate::instr::{A0, AsmInstruction, BasicBlock, HEAP_PTR, HEAP_START, ValueOrConst};
use crate::ir::{
    Array, DslIr, Ext, ExtImm, Felt, IndexTriple, MAX_VALUE_INDEX, MemIndex, Ptr, Usize,
    ValueKind, Var, ir_size, op_wf, seq_ir_size, seq_wf, value_address,
};

verus! {

/// A construction-time misuse of the input language: an operation the
/// compiler refuses, named so the failure can be reported before any part of
/// the program is used.
#[derive(Clone, Copy, Debug, PartialEq, Eq, Structural)]
pub enum CompileError {
    /// A bit-decomposition form that has no instruction.
    Num2Bits,
    /// Bit-reversal of an index range.
    ReverseBitsLen,
    /// A two-adic generator request.
    TwoAdicGenerator,
    /// Exponentiation by an integer.
    ExpUsize,
    /// An operand variant the operation does not accept, such as a
    /// statically unrolled array where a heap array is needed.
    InvalidOperand,
    /// A `break` with no enclosing loop.
    BreakOutsideLoop,
}

/// The mathematical state of a compiler: the block list and the break and
/// function label tables.
#[verifier::ext_equal]
pub struct CompilerView {
    /// The instruction sequences of the blocks; a block's index is its label.
    pub blocks: Seq<Seq<AsmInstruction>>,
    /// The innermost *active* loop label breaks currently resolve to:
    /// set on entering a loop body, restored to the enclosing loop's label
    /// (none at top level) when the loop finishes.
    pub break_label: Option<u32>,
    /// For each loop label ever allocated, the after-loop block it was
    /// resolved to, once resolved.
    pub break_label_map: Seq<Option<u32>>,
    /// Labels of blocks that have held an abstract break instruction.
    pub contains_break: Seq<u32>,
    /// Entry-point name to block label.
    pub function_labels: Seq<(Seq<char>, u32)>,
}

impl CompilerView {
    /// The label of the current block: always the last one.
    pub open spec fn cur_label(self) -> int {
        self.blocks.len() - 1
    }

    /// Block labels fit the canonical label space, the current break label
    /// is allocated, and every recorded break location is a real block.
    pub open spec fn wf(self) -> bool {
        &&& 1 <= self.blocks.len() <= FIELD_MODULUS as int
        &&& self.break_label_map.len() <= FIELD_MODULUS as int
        &&& (self.break_label matches Some(l) ==> (l as int) < self.break_label_map.len())
        &&& forall|i: int|
            0 <= i < self.contains_break.len() ==> (
            #[trigger] self.contains_break[i] as int) < self.blocks.len()
    }
}

/// Appends an instruction to the current block.
pub open spec fn sp_push(v: CompilerView, instruction: AsmInstruction) -> CompilerView {
    CompilerView {
        blocks: v.blocks.update(v.cur_label(), v.blocks.last().push(instruction)),
        ..v
    }
}

/// Appends an instruction to the block with the given label.
pub open spec fn sp_push_to(v: CompilerView, label: int, instruction: AsmInstruction)
    -> CompilerView {
    CompilerView { blocks: v.blocks.update(label, v.blocks[label].push(instruction)), ..v }
}

/// Opens a fresh, empty block, which becomes current.
pub open spec fn sp_new_block(v: CompilerView) -> CompilerView {
    CompilerView { blocks: v.blocks.push(Seq::empty()), ..v }
}

/// The branch instruction that transfers to `block` when the comparison of
/// `lhs` against `rhs` has the *opposite* sense of `is_eq`.
pub open spec fn sp_branch(lhs: i32, rhs: ValueOrConst, is_eq: bool, block: u32)
    -> AsmInstruction {
    match (rhs, is_eq) {
        (ValueOrConst::Const(r), true) => AsmInstruction::BneI(block, lhs, r),
        (ValueOrConst::Const(r), false) => AsmInstruction::BeqI(block, lhs, r),
        (ValueOrConst::ExtConst(r), true) => AsmInstruction::BneEI(block, lhs, r),
        (ValueOrConst::ExtConst(r), false) => AsmInstruction::BeqEI(block, lhs, r),
        (ValueOrConst::Val(r), true) => AsmInstruction::Bne(block, lhs, r),
        (ValueOrConst::Val(r), false) => AsmInstruction::Beq(block, lhs, r),
        (ValueOrConst::ExtVal(r), true) => AsmInstruction::BneE(block, lhs, r),
        (ValueOrConst::ExtVal(r), false) => AsmInstruction::BeqE(block, lhs, r),
    }
}

/// The frame-pointer offset of a var, as an instruction operand.
pub open spec fn var_fp(v: Var) -> i32 {
    value_address(ValueKind::Var, v.0 as int) as i32
}

/// The frame-pointer offset of a felt, as an instruction operand.
pub open spec fn felt_fp(f: Felt) -> i32 {
    value_address(ValueKind::Felt, f.0 as int) as i32
}

/// The frame-pointer offset of an extension element, as an instruction
/// operand.
pub open spec fn ext_fp(e: Ext) -> i32 {
    value_address(ValueKind::Ext, e.0 as int) as i32
}

/// The frame-pointer offset of a pointer, as an instruction operand.
pub open spec fn ptr_fp(p: Ptr) -> i32 {
    var_fp(p.address)
}

/// The state left by compiling an assertion: a trap block reached by
/// falling through the guarding branch, and a continuation block both paths
/// converge to.
pub open spec fn sp_assert(v: CompilerView, lhs: i32, rhs: ValueOrConst, is_eq: bool)
    -> CompilerView {
    let branching = v.cur_label();
    let v1 = sp_new_block(v);
    let v2 = sp_push(v1, AsmInstruction::Trap);
    let v3 = sp_new_block(v2);
    let after = v3.cur_label();
    sp_push_to(v3, branching, sp_branch(lhs, rhs, is_eq, after as u32))
}

/// The state left by compiling an allocation: the pointer is bound to the
/// current heap pointer, which then advances by length times element size
/// (through the scratch slot when the length is a variable).
pub open spec fn sp_alloc(v: CompilerView, ptr: Ptr, len: Usize, size: int) -> CompilerView {
    match len {
        Usize::Const(c) => {
            let v1 = sp_push(v, AsmInstruction::AddFI(ptr_fp(ptr), HEAP_PTR, 0));
            sp_push(
                v1,
                AsmInstruction::AddFI(HEAP_PTR, HEAP_PTR, fmul(c as int, size) as u32),
            )
        },
        Usize::Var(lv) => {
            let v1 = sp_push(v, AsmInstruction::AddFI(ptr_fp(ptr), HEAP_PTR, 0));
            let v2 = sp_push(v1, AsmInstruction::MulFI(A0, var_fp(lv), size as u32));
            sp_push(v2, AsmInstruction::AddF(HEAP_PTR, HEAP_PTR, A0))
        },
    }
}

/// The refusal the compiler reports for this operation, if any, given
/// whether a break label is currently set. `None` means the operation is
/// accepted, nested bodies included.
pub open spec fn op_check(op: DslIr, has_label: bool) -> Option<CompileError>
    decreases op,
{
    match op {
        DslIr::IfEq(_, _, t, e) => match seq_check(t@, has_label) {
            Some(err) => Some(err),
            None => seq_check(e@, has_label),
        },
        DslIr::IfNe(_, _, t, e) => match seq_check(t@, has_label) {
            Some(err) => Some(err),
            None => seq_check(e@, has_label),
        },
        DslIr::IfEqI(_, _, t, e) => match seq_check(t@, has_label) {
            Some(err) => Some(err),
            None => seq_check(e@, has_label),
        },
        DslIr::IfNeI(_, _, t, e) => match seq_check(t@, has_label) {
            Some(err) => Some(err),
            None => seq_check(e@, has_label),
        },
        DslIr::For(_, _, _, _, body) => seq_check(body@, true),
        DslIr::Break => if has_label {
            None
        } else {
            Some(CompileError::BreakOutsideLoop)
        },
        DslIr::Num2BitsF(_, _) => Some(CompileError::Num2Bits),
        DslIr::Num2BitsV(_, _) => Some(CompileError::Num2Bits),
        DslIr::ReverseBitsLen(_, _, _) => Some(CompileError::ReverseBitsLen),
        DslIr::TwoAdicGenerator(_, _) => Some(CompileError::TwoAdicGenerator),
        DslIr::ExpUsizeV(_, _, _) => Some(CompileError::ExpUsize),
        DslIr::ExpUsizeF(_, _, _) => Some(CompileError::ExpUsize),
        DslIr::HintBitsU(d, s) => if d is Dyn && s is Var {
            None
        } else {
            Some(CompileError::InvalidOperand)
        },
        DslIr::HintBitsF(d, _) => if d is Dyn {
            None
        } else {
            Some(CompileError::InvalidOperand)
        },
        DslIr::HintBitsV(d, _) => if d is Dyn {
            None
        } else {
            Some(CompileError::InvalidOperand)
        },
        DslIr::Poseidon2PermuteBabyBear(d, s) => if d is Dyn && s is Dyn {
            None
        } else {
            Some(CompileError::InvalidOperand)
        },
        DslIr::Ext2Felt(d, _) => if d is Dyn {
            None
        } else {
            Some(CompileError::InvalidOperand)
        },
        DslIr::HintVars(d) => if d is Dyn {
            None
        } else {
            Some(CompileError::InvalidOperand)
        },
        DslIr::HintFelts(d) => if d is Dyn {
            None
        } else {
            Some(CompileError::InvalidOperand)
        },
        DslIr::HintExts(d) => if d is Dyn {
            None
        } else {
            Some(CompileError::InvalidOperand)
        },
        DslIr::FriFold(_, a) => if a is Dyn {
            None
        } else {
            Some(CompileError::InvalidOperand)
        },
        DslIr::Poseidon2CompressBabyBear(a, b, c) => if a is Dyn && b is Dyn && c is Dyn {
            None
        } else {
            Some(CompileError::InvalidOperand)
        },
        _ => None,
    }
}

/// The first refusal reported for the sequence. Whether a break label is
/// active is a property of the enclosing loops alone, so it passes through
/// the sequence unchanged.
pub open spec fn seq_check(ops: Seq<DslIr>, has_label: bool) -> Option<CompileError>
    decreases ops,
{
    if ops.len() == 0 {
        None
    } else {
        match op_check(ops[0], has_label) {
            Some(err) => Some(err),
            None => seq_check(ops.drop_first(), has_label),
        }
    }
}

/// On the very first block, the heap pointer is initialized to the first
/// cell past the stack.
pub open spec fn sp_heap_init(v: CompilerView) -> CompilerView {
    if v.cur_label() == 0 {
        sp_push(v, AsmInstruction::ImmF(HEAP_PTR, HEAP_START))
    } else {
        v
    }
}

/// Records the current block as one holding an abstract break, once.
pub open spec fn sp_mark_break(v: CompilerView, label: u32) -> CompilerView {
    if v.contains_break.contains(label) {
        v
    } else {
        CompilerView { contains_break: v.contains_break.push(label), ..v }
    }
}

/// Compiles a `break`: an abstract break instruction carrying the innermost
/// loop label, in a block recorded for later rewriting.
pub open spec fn sp_break(v: CompilerView) -> CompilerView {
    let cur = v.cur_label() as u32;
    sp_push(sp_mark_break(v, cur), AsmInstruction::Break(v.break_label->0))
}

/// Initializes the loop variable: an immediate load for a constant start, a
/// register copy otherwise.
pub open spec fn sp_set_loop_var(v: CompilerView, start: Usize, lv: Var) -> CompilerView {
    match start {
        Usize::Const(c) => sp_push(v, AsmInstruction::ImmF(var_fp(lv), c as u32)),
        Usize::Var(sv) => sp_push(v, AsmInstruction::AddFI(var_fp(lv), var_fp(sv), 0)),
    }
}

/// The bottom test: branch back to the loop body while the loop variable
/// differs from the end bound.
pub open spec fn sp_jump_to_loop_body(v: CompilerView, end: Usize, lv: Var, loop_label: u32)
    -> CompilerView {
    match end {
        Usize::Const(c) => sp_push(v, AsmInstruction::BneI(loop_label, var_fp(lv), c as u32)),
        Usize::Var(ev) => sp_push(v, AsmInstruction::Bne(loop_label, var_fp(lv), var_fp(ev))),
    }
}

/// The fused unit-step terminal: increment the loop variable and branch back
/// to the loop body while it differs from the end bound.
pub open spec fn sp_jump_to_loop_body_inc(v: CompilerView, end: Usize, lv: Var, loop_label: u32)
    -> CompilerView {
    match end {
        Usize::Const(c) => sp_push(v, AsmInstruction::BneIInc(loop_label, var_fp(lv), c as u32)),
        Usize::Var(ev) => sp_push(v, AsmInstruction::BneInc(loop_label, var_fp(lv), var_fp(ev))),
    }
}

/// Rewrites one instruction: an abstract break for exactly this label
/// becomes a jump to the target; anything else is untouched.
pub open spec fn sp_rewrite_instr(i: AsmInstruction, label: u32, target: u32) -> AsmInstruction {
    match i {
        AsmInstruction::Break(l) => if l == label {
            AsmInstruction::Jump(target)
        } else {
            i
        },
        _ => i,
    }
}

/// Rewrites every abstract break for this label within one block.
pub open spec fn sp_rewrite_block(b: Seq<AsmInstruction>, label: u32, target: u32)
    -> Seq<AsmInstruction> {
    Seq::new(b.len(), |k: int| sp_rewrite_instr(b[k], label, target))
}

/// Resolves a break label: every block recorded as holding a break has its
/// abstract breaks for this label rewritten to jumps at the target.
pub open spec fn sp_resolve_breaks(v: CompilerView, label: u32, target: u32) -> CompilerView {
    CompilerView {
        blocks: Seq::new(
            v.blocks.len(),
            |b: int|
                if v.contains_break.contains(b as u32) {
                    sp_rewrite_block(v.blocks[b], label, target)
                } else {
                    v.blocks[b]
                },
        ),
        ..v
    }
}

/// The state left by compiling a loop: loop-variable setup, a fresh break
/// label for this nesting level, the body, the increment (fused into the
/// back-branch for unit step), the bottom-tested condition block, the entry
/// jump into it, and the after-loop block to which every break of this loop
/// is retroactively rewritten. The enclosing loop's break label -- none at
/// top level -- is active again afterwards, so a later break resolves to
/// the loop that actually encloses it.
pub open spec fn sp_for(
    v: CompilerView,
    start: Usize,
    end: Usize,
    step: u32,
    lv: Var,
    body: Seq<DslIr>,
) -> CompilerView
    decreases seq_ir_size(body), 3nat,
{
    let v1 = sp_set_loop_var(v, start, lv);
    let loop_call = v1.cur_label();
    let bl = v1.break_label_map.len() as u32;
    let v2 = CompilerView {
        break_label: Some(bl),
        break_label_map: v1.break_label_map.push(None),
        ..v1
    };
    let v3 = sp_new_block(v2);
    let loop_label = v3.cur_label() as u32;
    let v4 = sp_build(v3, body);
    let v5 = if step == 1 {
        sp_jump_to_loop_body_inc(v4, end, lv, loop_label)
    } else {
        sp_push(v4, AsmInstruction::AddFI(var_fp(lv), var_fp(lv), step))
    };
    let v6 = sp_new_block(v5);
    let v7 = sp_jump_to_loop_body(v6, end, lv, loop_label);
    let cond_label = v7.cur_label() as u32;
    let v8 = sp_push_to(v7, loop_call, AsmInstruction::Jump(cond_label));
    let v9 = sp_new_block(v8);
    let after = v9.cur_label() as u32;
    let v10 = CompilerView {
        break_label: v.break_label,
        break_label_map: v9.break_label_map.update(bl as int, Some(after)),
        ..v9
    };
    sp_resolve_breaks(v10, bl, after)
}

/// The state left by compiling a single-branch conditional: a then-block
/// entered by fallthrough, and an after-block the branching block jumps to
/// when the condition fails.
pub open spec fn sp_then(
    v: CompilerView,
    lhs: i32,
    rhs: ValueOrConst,
    is_eq: bool,
    body: Seq<DslIr>,
) -> CompilerView
    decreases seq_ir_size(body), 3nat,
{
    let branching = v.cur_label();
    let v1 = sp_new_block(v);
    let v2 = sp_build(v1, body);
    let v3 = sp_new_block(v2);
    let after = v3.cur_label();
    sp_push_to(v3, branching, sp_branch(lhs, rhs, is_eq, after as u32))
}

/// The state left by compiling a two-branch conditional: a then-block
/// entered by fallthrough, an else-block the branching block jumps to when
/// the condition fails, and an after-block both paths converge to.
pub open spec fn sp_then_or_else(
    v: CompilerView,
    lhs: i32,
    rhs: ValueOrConst,
    is_eq: bool,
    then_body: Seq<DslIr>,
    else_body: Seq<DslIr>,
) -> CompilerView
    decreases seq_ir_size(then_body) + seq_ir_size(else_body), 3nat,
{
    let branching = v.cur_label();
    let v1 = sp_new_block(v);
    let v2 = sp_build(v1, then_body);
    let last_if = v2.cur_label();
    let v3 = sp_new_block(v2);
    let else_block = v3.cur_label();
    let v4 = sp_build(v3, else_body);
    let v5 = sp_push_to(v4, branching, sp_branch(lhs, rhs, is_eq, else_block as u32));
    let v6 = sp_new_block(v5);
    let main_flow = v6.cur_label();
    sp_push_to(v6, last_if, AsmInstruction::Jump(main_flow as u32))
}

/// The state left by compiling one operation.
#[verifier::opaque]
pub open spec fn sp_build_op(v: CompilerView, op: DslIr) -> CompilerView
    decreases ir_size(op), 0nat,
{
    match op {
        DslIr::ImmV(d, s) => sp_push(v, AsmInstruction::ImmF(var_fp(d), s)),
        DslIr::ImmF(d, s) => sp_push(v, AsmInstruction::ImmF(felt_fp(d), s)),
        DslIr::ImmE(d, s) => sp_push(v, AsmInstruction::ImmE(ext_fp(d), s)),
        DslIr::AddV(d, l, r) => sp_push(v, AsmInstruction::AddF(var_fp(d), var_fp(l), var_fp(r))),
        DslIr::AddVI(d, l, r) => sp_push(v, AsmInstruction::AddFI(var_fp(d), var_fp(l), r)),
        DslIr::AddF(d, l, r) => sp_push(
            v,
            AsmInstruction::AddF(felt_fp(d), felt_fp(l), felt_fp(r)),
        ),
        DslIr::AddFI(d, l, r) => sp_push(v, AsmInstruction::AddFI(felt_fp(d), felt_fp(l), r)),
        DslIr::AddE(d, l, r) => sp_push(v, AsmInstruction::AddE(ext_fp(d), ext_fp(l), ext_fp(r))),
        DslIr::AddEI(d, l, r) => sp_push(v, AsmInstruction::AddEI(ext_fp(d), ext_fp(l), r)),
        DslIr::AddEF(d, l, r) => sp_push(
            v,
            AsmInstruction::AddEF(ext_fp(d), ext_fp(l), felt_fp(r)),
        ),
        DslIr::AddEFFI(d, l, r) => sp_push(v, AsmInstruction::AddEIF(ext_fp(d), felt_fp(l), r)),
        DslIr::AddEFI(d, l, r) => sp_push(
            v,
            AsmInstruction::AddEI(ext_fp(d), ext_fp(l), ExtImm(r, 0, 0, 0)),
        ),
        DslIr::SubV(d, l, r) => sp_push(v, AsmInstruction::SubF(var_fp(d), var_fp(l), var_fp(r))),
        DslIr::SubVI(d, l, r) => sp_push(v, AsmInstruction::SubFI(var_fp(d), var_fp(l), r)),
        DslIr::SubVIN(d, l, r) => sp_push(v, AsmInstruction::SubFIN(var_fp(d), l, var_fp(r))),
        DslIr::SubF(d, l, r) => sp_push(
            v,
            AsmInstruction::SubF(felt_fp(d), felt_fp(l), felt_fp(r)),
        ),
        DslIr::SubFI(d, l, r) => sp_push(v, AsmInstruction::SubFI(felt_fp(d), felt_fp(l), r)),
        DslIr::SubFIN(d, l, r) => sp_push(v, AsmInstruction::SubFIN(felt_fp(d), l, felt_fp(r))),
        DslIr::NegV(d, s) => sp_push(v, AsmInstruction::SubFIN(var_fp(d), 1, var_fp(s))),
        DslIr::NegF(d, s) => sp_push(v, AsmInstruction::SubFIN(felt_fp(d), 1, felt_fp(s))),
        DslIr::DivF(d, l, r) => sp_push(
            v,
            AsmInstruction::DivF(felt_fp(d), felt_fp(l), felt_fp(r)),
        ),
        DslIr::DivFI(d, l, r) => sp_push(v, AsmInstruction::DivFI(felt_fp(d), felt_fp(l), r)),
        DslIr::DivFIN(d, l, r) => sp_push(v, AsmInstruction::DivFIN(felt_fp(d), l, felt_fp(r))),
        DslIr::InvV(d, s) => sp_push(v, AsmInstruction::DivFIN(var_fp(d), 1, var_fp(s))),
        DslIr::InvF(d, s) => sp_push(v, AsmInstruction::DivFIN(felt_fp(d), 1, felt_fp(s))),
        DslIr::DivEF(d, l, r) => sp_push(
            v,
            AsmInstruction::DivFE(ext_fp(d), ext_fp(l), felt_fp(r)),
        ),
        DslIr::DivEFI(d, l, r) => sp_push(
            v,
            AsmInstruction::DivEI(ext_fp(d), ext_fp(l), ExtImm(r, 0, 0, 0)),
        ),
        DslIr::DivEIN(d, l, r) => sp_push(v, AsmInstruction::DivEIN(ext_fp(d), l, ext_fp(r))),
        DslIr::DivEFIN(d, l, r) => sp_push(
            v,
            AsmInstruction::DivEIN(ext_fp(d), ExtImm(l, 0, 0, 0), ext_fp(r)),
        ),
        DslIr::DivE(d, l, r) => sp_push(v, AsmInstruction::DivE(ext_fp(d), ext_fp(l), ext_fp(r))),
        DslIr::DivEI(d, l, r) => sp_push(v, AsmInstruction::DivEI(ext_fp(d), ext_fp(l), r)),
        DslIr::InvE(d, s) => sp_push(
            v,
            AsmInstruction::DivEIN(ext_fp(d), ExtImm(1, 0, 0, 0), ext_fp(s)),
        ),
        DslIr::SubEF(d, l, r) => sp_push(
            v,
            AsmInstruction::SubFE(ext_fp(d), ext_fp(l), felt_fp(r)),
        ),
        DslIr::SubEFI(d, l, r) => sp_push(
            v,
            AsmInstruction::SubEI(ext_fp(d), ext_fp(l), ExtImm(r, 0, 0, 0)),
        ),
        DslIr::SubEIN(d, l, r) => sp_push(v, AsmInstruction::SubEIN(ext_fp(d), l, ext_fp(r))),
        DslIr::SubE(d, l, r) => sp_push(v, AsmInstruction::SubE(ext_fp(d), ext_fp(l), ext_fp(r))),
        DslIr::SubEI(d, l, r) => sp_push(v, AsmInstruction::SubEI(ext_fp(d), ext_fp(l), r)),
        DslIr::NegE(d, s) => sp_push(
            v,
            AsmInstruction::SubEIN(ext_fp(d), ExtImm(0, 0, 0, 0), ext_fp(s)),
        ),
        DslIr::MulV(d, l, r) => sp_push(v, AsmInstruction::MulF(var_fp(d), var_fp(l), var_fp(r))),
        DslIr::MulVI(d, l, r) => sp_push(v, AsmInstruction::MulFI(var_fp(d), var_fp(l), r)),
        DslIr::MulF(d, l, r) => sp_push(
            v,
            AsmInstruction::MulF(felt_fp(d), felt_fp(l), felt_fp(r)),
        ),
        DslIr::MulFI(d, l, r) => sp_push(v, AsmInstruction::MulFI(felt_fp(d), felt_fp(l), r)),
        DslIr::MulE(d, l, r) => sp_push(v, AsmInstruction::MulE(ext_fp(d), ext_fp(l), ext_fp(r))),
        DslIr::MulEI(d, l, r) => sp_push(v, AsmInstruction::MulEI(ext_fp(d), ext_fp(l), r)),
        DslIr::MulEF(d, l, r) => sp_push(
            v,
            AsmInstruction::MulFE(ext_fp(d), ext_fp(l), felt_fp(r)),
        ),
        DslIr::MulEFI(d, l, r) => sp_push(
            v,
            AsmInstruction::MulEI(ext_fp(d), ext_fp(l), ExtImm(r, 0, 0, 0)),
        ),
        DslIr::IfEq(l, r, t, e) => if e@.len() == 0 {
            sp_then(v, var_fp(l), ValueOrConst::Val(var_fp(r)), true, t@)
        } else {
            sp_then_or_else(v, var_fp(l), ValueOrConst::Val(var_fp(r)), true, t@, e@)
        },
        DslIr::IfNe(l, r, t, e) => if e@.len() == 0 {
            sp_then(v, var_fp(l), ValueOrConst::Val(var_fp(r)), false, t@)
        } else {
            sp_then_or_else(v, var_fp(l), ValueOrConst::Val(var_fp(r)), false, t@, e@)
        },
        DslIr::IfEqI(l, r, t, e) => if e@.len() == 0 {
            sp_then(v, var_fp(l), ValueOrConst::Const(r), true, t@)
        } else {
            sp_then_or_else(v, var_fp(l), ValueOrConst::Const(r), true, t@, e@)
        },
        DslIr::IfNeI(l, r, t, e) => if e@.len() == 0 {
            sp_then(v, var_fp(l), ValueOrConst::Const(r), false, t@)
        } else {
            sp_then_or_else(v, var_fp(l), ValueOrConst::Const(r), false, t@, e@)
        },
        DslIr::Break => sp_break(v),
        DslIr::For(start, end, step, lv, body) => sp_for(v, start, end, step, lv, body@),
        DslIr::AssertEqV(l, r) => sp_assert(v, var_fp(l), ValueOrConst::Val(var_fp(r)), false),
        DslIr::AssertEqVI(l, r) => sp_assert(v, var_fp(l), ValueOrConst::Const(r), false),
        DslIr::AssertNeV(l, r) => sp_assert(v, var_fp(l), ValueOrConst::Val(var_fp(r)), true),
        DslIr::AssertNeVI(l, r) => sp_assert(v, var_fp(l), ValueOrConst::Const(r), true),
        DslIr::AssertEqF(l, r) => sp_assert(v, felt_fp(l), ValueOrConst::Val(felt_fp(r)), false),
        DslIr::AssertEqFI(l, r) => sp_assert(v, felt_fp(l), ValueOrConst::Const(r), false),
        DslIr::AssertNeF(l, r) => sp_assert(v, felt_fp(l), ValueOrConst::Val(felt_fp(r)), true),
        DslIr::AssertNeFI(l, r) => sp_assert(v, felt_fp(l), ValueOrConst::Const(r), true),
        DslIr::AssertEqE(l, r) => sp_assert(v, ext_fp(l), ValueOrConst::ExtVal(ext_fp(r)), false),
        DslIr::AssertEqEI(l, r) => sp_assert(v, ext_fp(l), ValueOrConst::ExtConst(r), false),
        DslIr::AssertNeE(l, r) => sp_assert(v, ext_fp(l), ValueOrConst::ExtVal(ext_fp(r)), true),
        DslIr::AssertNeEI(l, r) => sp_assert(v, ext_fp(l), ValueOrConst::ExtConst(r), true),
        DslIr::Alloc(p, len, size) => sp_alloc(v, p, len, size as int),
        DslIr::LoadV(d, p, idx) => match idx.index {
            Usize::Const(c) => sp_push(
                v,
                AsmInstruction::LoadFI(var_fp(d), ptr_fp(p), c as u32, idx.offset, idx.size),
            ),
            Usize::Var(iv) => sp_push(
                v,
                AsmInstruction::LoadF(var_fp(d), ptr_fp(p), var_fp(iv), idx.offset, idx.size),
            ),
        },
        DslIr::LoadF(d, p, idx) => match idx.index {
            Usize::Const(c) => sp_push(
                v,
                AsmInstruction::LoadFI(felt_fp(d), ptr_fp(p), c as u32, idx.offset, idx.size),
            ),
            Usize::Var(iv) => sp_push(
                v,
                AsmInstruction::LoadF(felt_fp(d), ptr_fp(p), var_fp(iv), idx.offset, idx.size),
            ),
        },
        DslIr::LoadE(d, p, idx) => match idx.index {
            Usize::Const(c) => sp_push(
                v,
                AsmInstruction::LoadEI(ext_fp(d), ptr_fp(p), c as u32, idx.offset, idx.size),
            ),
            Usize::Var(iv) => sp_push(
                v,
                AsmInstruction::LoadE(ext_fp(d), ptr_fp(p), var_fp(iv), idx.offset, idx.size),
            ),
        },
        DslIr::StoreV(p, d, idx) => match idx.index {
            Usize::Const(c) => sp_push(
                v,
                AsmInstruction::StoreFI(ptr_fp(p), var_fp(d), c as u32, idx.offset, idx.size),
            ),
            Usize::Var(iv) => sp_push(
                v,
                AsmInstruction::StoreF(ptr_fp(p), var_fp(d), var_fp(iv), idx.offset, idx.size),
            ),
        },
        DslIr::StoreF(p, d, idx) => match idx.index {
            Usize::Const(c) => sp_push(
                v,
                AsmInstruction::StoreFI(ptr_fp(p), felt_fp(d), c as u32, idx.offset, idx.size),
            ),
            Usize::Var(iv) => sp_push(
                v,
                AsmInstruction::StoreF(ptr_fp(p), felt_fp(d), var_fp(iv), idx.offset, idx.size),
            ),
        },
        DslIr::StoreE(p, d, idx) => match idx.index {
            Usize::Const(c) => sp_push(
                v,
                AsmInstruction::StoreEI(ptr_fp(p), ext_fp(d), c as u32, idx.offset, idx.size),
            ),
            Usize::Var(iv) => sp_push(
                v,
                AsmInstruction::StoreE(ptr_fp(p), ext_fp(d), var_fp(iv), idx.offset, idx.size),
            ),
        },
        DslIr::HintBitsU(d, s) => match (d, s) {
            (Array::Dyn(dp, _), Usize::Var(sv)) => sp_push(
                v,
                AsmInstruction::HintBits(ptr_fp(dp), var_fp(sv)),
            ),
            _ => v,
        },
        DslIr::HintBitsF(d, s) => match d {
            Array::Dyn(dp, _) => sp_push(v, AsmInstruction::HintBits(ptr_fp(dp), felt_fp(s))),
            _ => v,
        },
        DslIr::HintBitsV(d, s) => match d {
            Array::Dyn(dp, _) => sp_push(v, AsmInstruction::HintBits(ptr_fp(dp), var_fp(s))),
            _ => v,
        },
        DslIr::Poseidon2PermuteBabyBear(d, s) => match (d, s) {
            (Array::Dyn(dp, _), Array::Dyn(sp, _)) => sp_push(
                v,
                AsmInstruction::Poseidon2Permute(ptr_fp(dp), ptr_fp(sp)),
            ),
            _ => v,
        },
        DslIr::Error => sp_push(v, AsmInstruction::Trap),
        DslIr::PrintF(d) => sp_push(v, AsmInstruction::PrintF(felt_fp(d))),
        DslIr::PrintV(d) => sp_push(v, AsmInstruction::PrintV(var_fp(d))),
        DslIr::PrintE(d) => sp_push(v, AsmInstruction::PrintE(ext_fp(d))),
        DslIr::Ext2Felt(d, s) => match d {
            Array::Dyn(dp, _) => sp_push(v, AsmInstruction::Ext2Felt(ptr_fp(dp), ext_fp(s))),
            _ => v,
        },
        DslIr::HintLen(d) => sp_push(v, AsmInstruction::HintLen(var_fp(d))),
        DslIr::HintVars(d) => match d {
            Array::Dyn(dp, _) => sp_push(v, AsmInstruction::Hint(ptr_fp(dp))),
            _ => v,
        },
        DslIr::HintFelts(d) => match d {
            Array::Dyn(dp, _) => sp_push(v, AsmInstruction::Hint(ptr_fp(dp))),
            _ => v,
        },
        DslIr::HintExts(d) => match d {
            Array::Dyn(dp, _) => sp_push(v, AsmInstruction::Hint(ptr_fp(dp))),
            _ => v,
        },
        DslIr::FriFold(m, a) => match a {
            Array::Dyn(ap, _) => sp_push(v, AsmInstruction::FriFold(var_fp(m), ptr_fp(ap))),
            _ => v,
        },
        DslIr::Poseidon2CompressBabyBear(rr, ll, r2) => match (rr, ll, r2) {
            (Array::Dyn(rp, _), Array::Dyn(lp, _), Array::Dyn(r2p, _)) => sp_push(
                v,
                AsmInstruction::Poseidon2Compress(ptr_fp(rp), ptr_fp(lp), ptr_fp(r2p)),
            ),
            _ => v,
        },
        _ => v,
    }
}

/// The state left by compiling a sequence of operations in order.
pub open spec fn sp_build_ops(v: CompilerView, ops: Seq<DslIr>) -> CompilerView
    decreases seq_ir_size(ops), 1nat,
{
    if ops.len() == 0 {
        v
    } else {
        proof {
            crate::ir::lemma_ir_size_pos(ops[0]);
        }
        sp_build_ops(sp_build_op(v, ops[0]), ops.drop_first())
    }
}

/// The state left by one `build` pass: the heap-pointer initialization when
/// starting from the very first block, then the operations in order.
pub open spec fn sp_build(v: CompilerView, ops: Seq<DslIr>) -> CompilerView
    decreases seq_ir_size(ops), 2nat,
{
    sp_build_ops(sp_heap_init(v), ops)
}

/// One unfolding step of [`sp_build_ops`] at position `i`.
proof fn lemma_build_ops_step(v: CompilerView, ops: Seq<DslIr>, i: int)
    requires
        0 <= i < ops.len(),
    ensures
        sp_build_ops(v, ops.skip(i)) == sp_build_ops(sp_build_op(v, ops[i]), ops.skip(i + 1)),
{
    reveal(sp_build_op);
    assert(ops.skip(i)[0] == ops[i]);
    assert(ops.skip(i).drop_first() =~= ops.skip(i + 1));
}

/// One unfolding step of [`seq_check`] at position `i`.
proof fn lemma_seq_check_step(ops: Seq<DslIr>, i: int, has_label: bool)
    requires
        0 <= i < ops.len(),
    ensures
        seq_check(ops.skip(i), has_label) == (match op_check(ops[i], has_label) {
            Some(err) => Some(err),
            None => seq_check(ops.skip(i + 1), has_label),
        }),
{
    reveal(op_check);
    assert(ops.skip(i)[0] == ops[i]);
    assert(ops.skip(i).drop_first() =~= ops.skip(i + 1));
}

/// Structural facts about compiling one operation: well-formedness is
/// preserved, the block list and break-label table only grow (within the
/// stated bounds), the function-label table is untouched, and the active
/// break label is exactly what it was: a loop restores the enclosing
/// label when it finishes.
#[verifier::rlimit(100)]
#[verifier::spinoff_prover]
pub proof fn lemma_frame_build_op(v: CompilerView, op: DslIr)
    requires
        v.wf(),
        v.blocks.len() + 3 * ir_size(op) <= FIELD_MODULUS as int,
        v.break_label_map.len() + ir_size(op) <= FIELD_MODULUS as int,
    ensures
        ({
            let r = sp_build_op(v, op);
            &&& r.wf()
            &&& v.blocks.len() <= r.blocks.len() <= v.blocks.len() + 3 * ir_size(op)
            &&& v.break_label_map.len() <= r.break_label_map.len() <= v.break_label_map.len()
                + ir_size(op)
            &&& r.function_labels == v.function_labels
            &&& r.break_label == v.break_label
        }),
    decreases ir_size(op), 0nat,
{
    reveal(sp_build_op);
    match op {
        DslIr::IfEq(l, r, t, e) => {
            if e@.len() == 0 {
                lemma_frame_then(v, var_fp(l), ValueOrConst::Val(var_fp(r)), true, t@);
            } else {
                lemma_frame_then_or_else(v, var_fp(l), ValueOrConst::Val(var_fp(r)), true, t@, e@);
            }
        },
        DslIr::IfNe(l, r, t, e) => {
            if e@.len() == 0 {
                lemma_frame_then(v, var_fp(l), ValueOrConst::Val(var_fp(r)), false, t@);
            } else {
                lemma_frame_then_or_else(
                    v,
                    var_fp(l),
                    ValueOrConst::Val(var_fp(r)),
                    false,
                    t@,
                    e@,
                );
            }
        },
        DslIr::IfEqI(l, r, t, e) => {
            if e@.len() == 0 {
                lemma_frame_then(v, var_fp(l), ValueOrConst::Const(r), true, t@);
            } else {
                lemma_frame_then_or_else(v, var_fp(l), ValueOrConst::Const(r), true, t@, e@);
            }
        },
        DslIr::IfNeI(l, r, t, e) => {
            if e@.len() == 0 {
                lemma_frame_then(v, var_fp(l), ValueOrConst::Const(r), false, t@);
            } else {
                lemma_frame_then_or_else(v, var_fp(l), ValueOrConst::Const(r), false, t@, e@);
            }
        },
        DslIr::For(start, end, step, lv, body) => {
            lemma_frame_for(v, start, end, step, lv, body@);
        },
        _ => {},
    }
}

/// Structural facts about compiling a sequence of operations; see
/// [`lemma_frame_build_op`].
pub proof fn lemma_frame_build_ops(v: CompilerView, ops: Seq<DslIr>)
    requires
        v.wf(),
        v.blocks.len() + 3 * seq_ir_size(ops) <= FIELD_MODULUS as int,
        v.break_label_map.len() + seq_ir_size(ops) <= FIELD_MODULUS as int,
    ensures
        ({
            let r = sp_build_ops(v, ops);
            &&& r.wf()
            &&& v.blocks.len() <= r.blocks.len() <= v.blocks.len() + 3 * seq_ir_size(ops)
            &&& v.break_label_map.len() <= r.break_label_map.len() <= v.break_label_map.len()
                + seq_ir_size(ops)
            &&& r.function_labels == v.function_labels
            &&& r.break_label == v.break_label
        }),
    decreases seq_ir_size(ops), 1nat,
{
    reveal(sp_build_op);
    if ops.len() != 0 {
        crate::ir::lemma_ir_size_pos(ops[0]);
        lemma_frame_build_op(v, ops[0]);
        lemma_frame_build_ops(sp_build_op(v, ops[0]), ops.drop_first());
        assert(sp_build_ops(v, ops) == sp_build_ops(sp_build_op(v, ops[0]), ops.drop_first()));
    } else {
        assert(sp_build_ops(v, ops) == v);
    }
}

/// Structural facts about one `build` pass; see [`lemma_frame_build_op`].
pub proof fn lemma_frame_build(v: CompilerView, ops: Seq<DslIr>)
    requires
        v.wf(),
        v.blocks.len() + 3 * seq_ir_size(ops) <= FIELD_MODULUS as int,
        v.break_label_map.len() + seq_ir_size(ops) <= FIELD_MODULUS as int,
    ensures
        ({
            let r = sp_build(v, ops);
            &&& r.wf()
            &&& v.blocks.len() <= r.blocks.len() <= v.blocks.len() + 3 * seq_ir_size(ops)
            &&& v.break_label_map.len() <= r.break_label_map.len() <= v.break_label_map.len()
                + seq_ir_size(ops)
            &&& r.function_labels == v.function_labels
            &&& r.break_label == v.break_label
        }),
    decreases seq_ir_size(ops), 2nat,
{
    let v0 = sp_heap_init(v);
    assert(v0.wf());
    lemma_frame_build_ops(v0, ops);
}

/// Structural facts about compiling a single-branch conditional; see
/// [`lemma_frame_build_op`].
pub proof fn lemma_frame_then(
    v: CompilerView,
    lhs: i32,
    rhs: ValueOrConst,
    is_eq: bool,
    body: Seq<DslIr>,
)
    requires
        v.wf(),
        v.blocks.len() + 2 + 3 * seq_ir_size(body) <= FIELD_MODULUS as int,
        v.break_label_map.len() + seq_ir_size(body) <= FIELD_MODULUS as int,
    ensures
        ({
            let r = sp_then(v, lhs, rhs, is_eq, body);
            &&& r.wf()
            &&& v.blocks.len() + 2 <= r.blocks.len() <= v.blocks.len() + 2 + 3 * seq_ir_size(body)
            &&& v.break_label_map.len() <= r.break_label_map.len() <= v.break_label_map.len()
                + seq_ir_size(body)
            &&& r.function_labels == v.function_labels
            &&& r.break_label == v.break_label
        }),
    decreases seq_ir_size(body), 3nat,
{
    let v1 = sp_new_block(v);
    assert(v1.wf());
    lemma_frame_build(v1, body);
}

/// Structural facts about compiling a two-branch conditional; see
/// [`lemma_frame_build_op`].
pub proof fn lemma_frame_then_or_else(
    v: CompilerView,
    lhs: i32,
    rhs: ValueOrConst,
    is_eq: bool,
    then_body: Seq<DslIr>,
    else_body: Seq<DslIr>,
)
    requires
        v.wf(),
        v.blocks.len() + 3 + 3 * (seq_ir_size(then_body) + seq_ir_size(else_body))
            <= FIELD_MODULUS as int,
        v.break_label_map.len() + seq_ir_size(then_body) + seq_ir_size(else_body)
            <= FIELD_MODULUS as int,
    ensures
        ({
            let r = sp_then_or_else(v, lhs, rhs, is_eq, then_body, else_body);
            &&& r.wf()
            &&& v.blocks.len() + 3 <= r.blocks.len() <= v.blocks.len() + 3 + 3 * (seq_ir_size(
                then_body,
            ) + seq_ir_size(else_body))
            &&& v.break_label_map.len() <= r.break_label_map.len() <= v.break_label_map.len()
                + seq_ir_size(then_body) + seq_ir_size(else_body)
            &&& r.function_labels == v.function_labels
            &&& r.break_label == v.break_label
        }),
    decreases seq_ir_size(then_body) + seq_ir_size(else_body), 3nat,
{
    let v1 = sp_new_block(v);
    assert(v1.wf());
    lemma_frame_build(v1, then_body);
    let v2 = sp_build(v1, then_body);
    let v3 = sp_new_block(v2);
    assert(v3.wf());
    lemma_frame_build(v3, else_body);
}

/// Structural facts about compiling a loop; see [`lemma_frame_build_op`].
/// A loop always leaves its own break label set.
pub proof fn lemma_frame_for(
    v: CompilerView,
    start: Usize,
    end: Usize,
    step: u32,
    lv: Var,
    body: Seq<DslIr>,
)
    requires
        v.wf(),
        v.blocks.len() + 3 + 3 * seq_ir_size(body) <= FIELD_MODULUS as int,
        v.break_label_map.len() + 1 + seq_ir_size(body) <= FIELD_MODULUS as int,
    ensures
        ({
            let r = sp_for(v, start, end, step, lv, body);
            &&& r.wf()
            &&& v.blocks.len() + 3 <= r.blocks.len() <= v.blocks.len() + 3 + 3 * seq_ir_size(body)
            &&& v.break_label_map.len() + 1 <= r.break_label_map.len() <= v.break_label_map.len()
                + 1 + seq_ir_size(body)
            &&& r.function_labels == v.function_labels
            &&& r.break_label == v.break_label
        }),
    decreases seq_ir_size(body), 3nat,
{
    let v1 = sp_set_loop_var(v, start, lv);
    let bl = v1.break_label_map.len() as u32;
    let v2 = CompilerView {
        break_label: Some(bl),
        break_label_map: v1.break_label_map.push(None),
        ..v1
    };
    let v3 = sp_new_block(v2);
    assert(v3.wf());
    lemma_frame_build(v3, body);
}

/// Whether the label already stands in the list.
fn contains_label(v: &Vec<u32>, x: u32) -> (b: bool)
    ensures
        b == v@.contains(x),
{
    let mut i: usize = 0;
    while i < v.len()
        invariant
            i <= v.len(),
            forall|j: int| 0 <= j < i ==> v@[j] != x,
        decreases v.len() - i,
    {
        if v[i] == x {
            return true;
        }
        i += 1;
    }
    false
}

/// One preservation step of the break bookkeeping: every abstract break of
/// the new state sits in a recorded block, and every previously recorded
/// block is still recorded.
pub open spec fn tracked_step(pre: CompilerView, post: CompilerView) -> bool {
    &&& breaks_tracked(post)
    &&& forall|x: u32| pre.contains_break.contains(x) ==> post.contains_break.contains(x)
}

/// Appending a non-break instruction to the current block keeps the
/// bookkeeping.
proof fn lemma_tracked_push(v: CompilerView, i: AsmInstruction)
    requires
        breaks_tracked(v),
        !(i is Break),
        v.blocks.len() >= 1,
    ensures
        tracked_step(v, sp_push(v, i)),
{
    let r = sp_push(v, i);
    assert forall|b: int, k: int|
        0 <= b < r.blocks.len() && 0 <= k < r.blocks[b].len() && (#[trigger] r.blocks[b][k])
            is Break implies r.contains_break.contains(b as u32) by {
        if b == v.cur_label() && k == v.blocks[b].len() {
            assert(r.blocks[b][k] == i);
        } else {
            assert(r.blocks[b][k] == v.blocks[b][k]);
        }
    }
}

/// Patching a non-break instruction into an existing block keeps the
/// bookkeeping.
proof fn lemma_tracked_push_to(v: CompilerView, label: int, i: AsmInstruction)
    requires
        breaks_tracked(v),
        !(i is Break),
        0 <= label < v.blocks.len(),
    ensures
        tracked_step(v, sp_push_to(v, label, i)),
{
    let r = sp_push_to(v, label, i);
    assert forall|b: int, k: int|
        0 <= b < r.blocks.len() && 0 <= k < r.blocks[b].len() && (#[trigger] r.blocks[b][k])
            is Break implies r.contains_break.contains(b as u32) by {
        if b == label && k == v.blocks[b].len() {
            assert(r.blocks[b][k] == i);
        } else {
            assert(r.blocks[b][k] == v.blocks[b][k]);
        }
    }
}

/// Opening a fresh, empty block keeps the bookkeeping.
proof fn lemma_tracked_new_block(v: CompilerView)
    requires
        breaks_tracked(v),
    ensures
        tracked_step(v, sp_new_block(v)),
{
    let r = sp_new_block(v);
    assert forall|b: int, k: int|
        0 <= b < r.blocks.len() && 0 <= k < r.blocks[b].len() && (#[trigger] r.blocks[b][k])
            is Break implies r.contains_break.contains(b as u32) by {
        assert(b < v.blocks.len());
        assert(r.blocks[b][k] == v.blocks[b][k]);
    }
}

/// Compiling a break records its block before emitting the abstract break,
/// keeping the bookkeeping.
proof fn lemma_tracked_break(v: CompilerView)
    requires
        breaks_tracked(v),
        v.wf(),
    ensures
        tracked_step(v, sp_break(v)),
{
    let cur = v.cur_label() as u32;
    let vm = sp_mark_break(v, cur);
    let r = sp_break(v);
    if !v.contains_break.contains(cur) {
        assert(vm.contains_break[vm.contains_break.len() - 1] == cur);
    }
    assert(vm.contains_break.contains(cur));
    assert forall|x: u32| v.contains_break.contains(x) implies r.contains_break.contains(x) by {
        let j = choose|j: int| 0 <= j < v.contains_break.len() && v.contains_break[j] == x;
        assert(vm.contains_break[j] == x);
    }
    assert forall|b: int, k: int|
        0 <= b < r.blocks.len() && 0 <= k < r.blocks[b].len() && (#[trigger] r.blocks[b][k])
            is Break implies r.contains_break.contains(b as u32) by {
        if b == v.cur_label() && k == v.blocks[b].len() {
            assert(r.contains_break.contains(cur));
        } else {
            assert(r.blocks[b][k] == v.blocks[b][k]);
            assert(v.contains_break.contains(b as u32));
        }
    }
}

/// Compiling an assertion emits only branches and a trap, keeping the
/// bookkeeping.
proof fn lemma_tracked_assert(v: CompilerView, lhs: i32, rhs: ValueOrConst, is_eq: bool)
    requires
        breaks_tracked(v),
        v.blocks.len() >= 1,
    ensures
        tracked_step(v, sp_assert(v, lhs, rhs, is_eq)),
{
    let branching = v.cur_label();
    let v1 = sp_new_block(v);
    let v2 = sp_push(v1, AsmInstruction::Trap);
    let v3 = sp_new_block(v2);
    let after = v3.cur_label();
    lemma_tracked_new_block(v);
    lemma_tracked_push(v1, AsmInstruction::Trap);
    lemma_tracked_new_block(v2);
    lemma_tracked_push_to(v3, branching, sp_branch(lhs, rhs, is_eq, after as u32));
}

/// Compiling an allocation emits only scalar instructions, keeping the
/// bookkeeping.
proof fn lemma_tracked_alloc(v: CompilerView, ptr: Ptr, len: Usize, size: int)
    requires
        breaks_tracked(v),
        v.blocks.len() >= 1,
    ensures
        tracked_step(v, sp_alloc(v, ptr, len, size)),
{
    match len {
        Usize::Const(c) => {
            let v1 = sp_push(v, AsmInstruction::AddFI(ptr_fp(ptr), HEAP_PTR, 0));
            lemma_tracked_push(v, AsmInstruction::AddFI(ptr_fp(ptr), HEAP_PTR, 0));
            lemma_tracked_push(
                v1,
                AsmInstruction::AddFI(HEAP_PTR, HEAP_PTR, fmul(c as int, size) as u32),
            );
        },
        Usize::Var(lv) => {
            let v1 = sp_push(v, AsmInstruction::AddFI(ptr_fp(ptr), HEAP_PTR, 0));
            let v2 = sp_push(v1, AsmInstruction::MulFI(A0, var_fp(lv), size as u32));
            lemma_tracked_push(v, AsmInstruction::AddFI(ptr_fp(ptr), HEAP_PTR, 0));
            lemma_tracked_push(v1, AsmInstruction::MulFI(A0, var_fp(lv), size as u32));
            lemma_tracked_push(v2, AsmInstruction::AddF(HEAP_PTR, HEAP_PTR, A0));
        },
    }
}

/// Resolving a break label rewrites abstract breaks into jumps and touches
/// nothing else, keeping the bookkeeping.
proof fn lemma_tracked_resolve(v: CompilerView, label: u32, target: u32)
    requires
        breaks_tracked(v),
    ensures
        tracked_step(v, sp_resolve_breaks(v, label, target)),
{
    let r = sp_resolve_breaks(v, label, target);
    assert forall|b: int, k: int|
        0 <= b < r.blocks.len() && 0 <= k < r.blocks[b].len() && (#[trigger] r.blocks[b][k])
            is Break implies r.contains_break.contains(b as u32) by {
        if v.contains_break.contains(b as u32) {
        } else {
            assert(r.blocks[b][k] == v.blocks[b][k]);
        }
    }
}

/// Compiling one operation keeps the break bookkeeping; see
/// [`theorem_build_preserves_tracked`].
#[verifier::rlimit(100)]
#[verifier::spinoff_prover]
proof fn lemma_tracked_build_op(v: CompilerView, op: DslIr)
    requires
        v.wf(),
        breaks_tracked(v),
        v.blocks.len() + 3 * ir_size(op) <= FIELD_MODULUS as int,
        v.break_label_map.len() + ir_size(op) <= FIELD_MODULUS as int,
    ensures
        tracked_step(v, sp_build_op(v, op)),
    decreases ir_size(op), 0nat,
{
    reveal(sp_build_op);
    assert forall|i0: AsmInstruction| !(i0 is Break) implies tracked_step(
        v,
        #[trigger] sp_push(v, i0),
    ) by {
        lemma_tracked_push(v, i0);
    }
    assert forall|l0: i32, r0: ValueOrConst, e0: bool|
        tracked_step(v, #[trigger] sp_assert(v, l0, r0, e0)) by {
        lemma_tracked_assert(v, l0, r0, e0);
    }
    assert forall|p0: Ptr, ln0: Usize, s0: int|
        tracked_step(v, #[trigger] sp_alloc(v, p0, ln0, s0)) by {
        lemma_tracked_alloc(v, p0, ln0, s0);
    }
    match op {
        DslIr::IfEq(l, r, t, e) => {
            if e@.len() == 0 {
                lemma_tracked_then(v, var_fp(l), ValueOrConst::Val(var_fp(r)), true, t@);
            } else {
                lemma_tracked_then_or_else(
                    v,
                    var_fp(l),
                    ValueOrConst::Val(var_fp(r)),
                    true,
                    t@,
                    e@,
                );
            }
        },
        DslIr::IfNe(l, r, t, e) => {
            if e@.len() == 0 {
                lemma_tracked_then(v, var_fp(l), ValueOrConst::Val(var_fp(r)), false, t@);
            } else {
                lemma_tracked_then_or_else(
                    v,
                    var_fp(l),
                    ValueOrConst::Val(var_fp(r)),
                    false,
                    t@,
                    e@,
                );
            }
        },
        DslIr::IfEqI(l, r, t, e) => {
            if e@.len() == 0 {
                lemma_tracked_then(v, var_fp(l), ValueOrConst::Const(r), true, t@);
            } else {
                lemma_tracked_then_or_else(v, var_fp(l), ValueOrConst::Const(r), true, t@, e@);
            }
        },
        DslIr::IfNeI(l, r, t, e) => {
            if e@.len() == 0 {
                lemma_tracked_then(v, var_fp(l), ValueOrConst::Const(r), false, t@);
            } else {
                lemma_tracked_then_or_else(v, var_fp(l), ValueOrConst::Const(r), false, t@, e@);
            }
        },
        DslIr::For(start, end, step, lv, body) => {
            lemma_tracked_for(v, start, end, step, lv, body@);
        },
        DslIr::Break => {
            lemma_tracked_break(v);
        },
        _ => {},
    }
}

/// Compiling a sequence keeps the break bookkeeping; see
/// [`theorem_build_preserves_tracked`].
proof fn lemma_tracked_build_ops(v: CompilerView, ops: Seq<DslIr>)
    requires
        v.wf(),
        breaks_tracked(v),
        v.blocks.len() + 3 * seq_ir_size(ops) <= FIELD_MODULUS as int,
        v.break_label_map.len() + seq_ir_size(ops) <= FIELD_MODULUS as int,
    ensures
        tracked_step(v, sp_build_ops(v, ops)),
    decreases seq_ir_size(ops), 1nat,
{
    if ops.len() != 0 {
        reveal(sp_build_op);
        crate::ir::lemma_ir_size_pos(ops[0]);
        lemma_frame_build_op(v, ops[0]);
        lemma_tracked_build_op(v, ops[0]);
        let v1 = sp_build_op(v, ops[0]);
        lemma_tracked_build_ops(v1, ops.drop_first());
        let r = sp_build_ops(v1, ops.drop_first());
        assert(sp_build_ops(v, ops) == r);
        assert forall|x: u32|
            v.contains_break.contains(x) implies r.contains_break.contains(x) by {
            assert(v1.contains_break.contains(x));
        }
    }
}

/// One `build` pass keeps the break bookkeeping; see
/// [`theorem_build_preserves_tracked`].
proof fn lemma_tracked_build(v: CompilerView, ops: Seq<DslIr>)
    requires
        v.wf(),
        breaks_tracked(v),
        v.blocks.len() + 3 * seq_ir_size(ops) <= FIELD_MODULUS as int,
        v.break_label_map.len() + seq_ir_size(ops) <= FIELD_MODULUS as int,
    ensures
        tracked_step(v, sp_build(v, ops)),
    decreases seq_ir_size(ops), 2nat,
{
    let v0 = sp_heap_init(v);
    if v.cur_label() == 0 {
        lemma_tracked_push(v, AsmInstruction::ImmF(HEAP_PTR, HEAP_START));
    }
    assert(v0.wf());
    assert(tracked_step(v, v0));
    lemma_tracked_build_ops(v0, ops);
}

/// Compiling a single-branch conditional keeps the break bookkeeping; see
/// [`theorem_build_preserves_tracked`].
proof fn lemma_tracked_then(
    v: CompilerView,
    lhs: i32,
    rhs: ValueOrConst,
    is_eq: bool,
    body: Seq<DslIr>,
)
    requires
        v.wf(),
        breaks_tracked(v),
        v.blocks.len() + 2 + 3 * seq_ir_size(body) <= FIELD_MODULUS as int,
        v.break_label_map.len() + seq_ir_size(body) <= FIELD_MODULUS as int,
    ensures
        tracked_step(v, sp_then(v, lhs, rhs, is_eq, body)),
    decreases seq_ir_size(body), 3nat,
{
    let branching = v.cur_label();
    let v1 = sp_new_block(v);
    assert(v1.wf());
    lemma_tracked_new_block(v);
    lemma_frame_build(v1, body);
    lemma_tracked_build(v1, body);
    let v2 = sp_build(v1, body);
    let v3 = sp_new_block(v2);
    let after = v3.cur_label();
    lemma_tracked_new_block(v2);
    lemma_tracked_push_to(v3, branching, sp_branch(lhs, rhs, is_eq, after as u32));
}

/// Compiling a two-branch conditional keeps the break bookkeeping; see
/// [`theorem_build_preserves_tracked`].
proof fn lemma_tracked_then_or_else(
    v: CompilerView,
    lhs: i32,
    rhs: ValueOrConst,
    is_eq: bool,
    then_body: Seq<DslIr>,
    else_body: Seq<DslIr>,
)
    requires
        v.wf(),
        breaks_tracked(v),
        v.blocks.len() + 3 + 3 * (seq_ir_size(then_body) + seq_ir_size(else_body))
            <= FIELD_MODULUS as int,
        v.break_label_map.len() + seq_ir_size(then_body) + seq_ir_size(else_body)
            <= FIELD_MODULUS as int,
    ensures
        tracked_step(v, sp_then_or_else(v, lhs, rhs, is_eq, then_body, else_body)),
    decreases seq_ir_size(then_body) + seq_ir_size(else_body), 3nat,
{
    let branching = v.cur_label();
    let v1 = sp_new_block(v);
    assert(v1.wf());
    lemma_tracked_new_block(v);
    lemma_frame_build(v1, then_body);
    lemma_tracked_build(v1, then_body);
    let v2 = sp_build(v1, then_body);
    let last_if = v2.cur_label();
    let v3 = sp_new_block(v2);
    let else_block = v3.cur_label();
    assert(v3.wf());
    lemma_tracked_new_block(v2);
    lemma_frame_build(v3, else_body);
    lemma_tracked_build(v3, else_body);
    let v4 = sp_build(v3, else_body);
    let v5 = sp_push_to(v4, branching, sp_branch(lhs, rhs, is_eq, else_block as u32));
    lemma_tracked_push_to(v4, branching, sp_branch(lhs, rhs, is_eq, else_block as u32));
    let v6 = sp_new_block(v5);
    let main_flow = v6.cur_label();
    lemma_tracked_new_block(v5);
    lemma_tracked_push_to(v6, last_if, AsmInstruction::Jump(main_flow as u32));
}

/// Compiling a loop keeps the break bookkeeping; see
/// [`theorem_build_preserves_tracked`].
proof fn lemma_tracked_for(
    v: CompilerView,
    start: Usize,
    end: Usize,
    step: u32,
    lv: Var,
    body: Seq<DslIr>,
)
    requires
        v.wf(),
        breaks_tracked(v),
        v.blocks.len() + 3 + 3 * seq_ir_size(body) <= FIELD_MODULUS as int,
        v.break_label_map.len() + 1 + seq_ir_size(body) <= FIELD_MODULUS as int,
    ensures
        tracked_step(v, sp_for(v, start, end, step, lv, body)),
    decreases seq_ir_size(body), 3nat,
{
    let v1 = sp_set_loop_var(v, start, lv);
    match start {
        Usize::Const(c) => {
            lemma_tracked_push(v, AsmInstruction::ImmF(var_fp(lv), c as u32));
        },
        Usize::Var(sv) => {
            lemma_tracked_push(v, AsmInstruction::AddFI(var_fp(lv), var_fp(sv), 0));
        },
    }
    let loop_call = v1.cur_label();
    let bl = v1.break_label_map.len() as u32;
    let v2 = CompilerView {
        break_label: Some(bl),
        break_label_map: v1.break_label_map.push(None),
        ..v1
    };
    assert(v2.blocks == v1.blocks && v2.contains_break == v1.contains_break);
    assert(breaks_tracked(v2));
    let v3 = sp_new_block(v2);
    assert(v3.wf());
    lemma_tracked_new_block(v2);
    lemma_frame_build(v3, body);
    lemma_tracked_build(v3, body);
    let v4 = sp_build(v3, body);
    let loop_label = v3.cur_label() as u32;
    let v5 = if step == 1 {
        sp_jump_to_loop_body_inc(v4, end, lv, loop_label)
    } else {
        sp_push(v4, AsmInstruction::AddFI(var_fp(lv), var_fp(lv), step))
    };
    if step == 1 {
        match end {
            Usize::Const(c) => {
                lemma_tracked_push(v4, AsmInstruction::BneIInc(loop_label, var_fp(lv), c as u32));
            },
            Usize::Var(ev) => {
                lemma_tracked_push(
                    v4,
                    AsmInstruction::BneInc(loop_label, var_fp(lv), var_fp(ev)),
                );
            },
        }
    } else {
        lemma_tracked_push(v4, AsmInstruction::AddFI(var_fp(lv), var_fp(lv), step));
    }
    let v6 = sp_new_block(v5);
    lemma_tracked_new_block(v5);
    let v7 = sp_jump_to_loop_body(v6, end, lv, loop_label);
    match end {
        Usize::Const(c) => {
            lemma_tracked_push(v6, AsmInstruction::BneI(loop_label, var_fp(lv), c as u32));
        },
        Usize::Var(ev) => {
            lemma_tracked_push(v6, AsmInstruction::Bne(loop_label, var_fp(lv), var_fp(ev)));
        },
    }
    let cond_label = v7.cur_label() as u32;
    let v8 = sp_push_to(v7, loop_call, AsmInstruction::Jump(cond_label));
    lemma_tracked_push_to(v7, loop_call, AsmInstruction::Jump(cond_label));
    let v9 = sp_new_block(v8);
    lemma_tracked_new_block(v8);
    let after = v9.cur_label() as u32;
    let v10 = CompilerView {
        break_label: v.break_label,
        break_label_map: v9.break_label_map.update(bl as int, Some(after)),
        ..v9
    };
    assert(v10.blocks == v9.blocks && v10.contains_break == v9.contains_break);
    assert(breaks_tracked(v10));
    lemma_tracked_resolve(v10, bl, after);
}

/// LAW (break bookkeeping is preserved): compilation keeps every abstract
/// break in a block recorded for rewriting, and never unrecords a block.
/// A fresh compiler satisfies the bookkeeping trivially (one empty block,
/// nothing recorded), so for every reachable compilation state the rewrite
/// of [`theorem_resolve_breaks_exact`] reaches every abstract break.
pub proof fn theorem_build_preserves_tracked(v: CompilerView, ops: Seq<DslIr>)
    requires
        v.wf(),
        breaks_tracked(v),
        v.blocks.len() + 3 * seq_ir_size(ops) <= FIELD_MODULUS as int,
        v.break_label_map.len() + seq_ir_size(ops) <= FIELD_MODULUS as int,
    ensures
        breaks_tracked(sp_build(v, ops)),
        forall|x: u32|
            v.contains_break.contains(x) ==> sp_build(v, ops).contains_break.contains(x),
    decreases seq_ir_size(ops), 3nat,
{
    lemma_tracked_build(v, ops);
}

/// Every abstract break sits in a block recorded for rewriting. The
/// compiler maintains this by recording the current block whenever it emits
/// a break.
pub open spec fn breaks_tracked(v: CompilerView) -> bool {
    forall|b: int, k: int|
        0 <= b < v.blocks.len() && 0 <= k < v.blocks[b].len() && (#[trigger] v.blocks[b][k])
            is Break ==> v.contains_break.contains(b as u32)
}

/// Every abstract break in the program carries a label from the given set
/// of active loop labels.
pub open spec fn breaks_bounded(v: CompilerView, active: Set<u32>) -> bool {
    forall|b: int, k: int|
        0 <= b < v.blocks.len() && 0 <= k < v.blocks[b].len() && (#[trigger] v.blocks[b][k])
            is Break ==> active.contains(v.blocks[b][k]->Break_0)
}

/// Appending an instruction whose break label, if any, is active keeps the
/// breaks bounded.
proof fn lemma_bounded_push(v: CompilerView, i: AsmInstruction, active: Set<u32>)
    requires
        breaks_bounded(v, active),
        (i is Break ==> active.contains(i->Break_0)),
        v.blocks.len() >= 1,
    ensures
        breaks_bounded(sp_push(v, i), active),
{
    let r = sp_push(v, i);
    assert forall|b: int, k: int|
        0 <= b < r.blocks.len() && 0 <= k < r.blocks[b].len() && (#[trigger] r.blocks[b][k])
            is Break implies active.contains(r.blocks[b][k]->Break_0) by {
        if b == v.cur_label() && k == v.blocks[b].len() {
            assert(r.blocks[b][k] == i);
        } else {
            assert(r.blocks[b][k] == v.blocks[b][k]);
        }
    }
}

/// Patching a non-break instruction into an existing block keeps the
/// breaks bounded.
proof fn lemma_bounded_push_to(v: CompilerView, label: int, i: AsmInstruction, active: Set<u32>)
    requires
        breaks_bounded(v, active),
        !(i is Break),
        0 <= label < v.blocks.len(),
    ensures
        breaks_bounded(sp_push_to(v, label, i), active),
{
    let r = sp_push_to(v, label, i);
    assert forall|b: int, k: int|
        0 <= b < r.blocks.len() && 0 <= k < r.blocks[b].len() && (#[trigger] r.blocks[b][k])
            is Break implies active.contains(r.blocks[b][k]->Break_0) by {
        if b == label && k == v.blocks[b].len() {
            assert(r.blocks[b][k] == i);
        } else {
            assert(r.blocks[b][k] == v.blocks[b][k]);
        }
    }
}

/// Opening a fresh block keeps the breaks bounded.
proof fn lemma_bounded_new_block(v: CompilerView, active: Set<u32>)
    requires
        breaks_bounded(v, active),
    ensures
        breaks_bounded(sp_new_block(v), active),
{
    let r = sp_new_block(v);
    assert forall|b: int, k: int|
        0 <= b < r.blocks.len() && 0 <= k < r.blocks[b].len() && (#[trigger] r.blocks[b][k])
            is Break implies active.contains(r.blocks[b][k]->Break_0) by {
        assert(b < v.blocks.len());
        assert(r.blocks[b][k] == v.blocks[b][k]);
    }
}

/// A larger active set bounds the same breaks.
proof fn lemma_bounded_widen(v: CompilerView, a1: Set<u32>, a2: Set<u32>)
    requires
        breaks_bounded(v, a1),
        a1.subset_of(a2),
    ensures
        breaks_bounded(v, a2),
{
}

/// Compiling an assertion keeps the breaks bounded.
proof fn lemma_bounded_assert(
    v: CompilerView,
    lhs: i32,
    rhs: ValueOrConst,
    is_eq: bool,
    active: Set<u32>,
)
    requires
        breaks_bounded(v, active),
        v.blocks.len() >= 1,
    ensures
        breaks_bounded(sp_assert(v, lhs, rhs, is_eq), active),
{
    let branching = v.cur_label();
    let v1 = sp_new_block(v);
    let v2 = sp_push(v1, AsmInstruction::Trap);
    let v3 = sp_new_block(v2);
    let after = v3.cur_label();
    lemma_bounded_new_block(v, active);
    lemma_bounded_push(v1, AsmInstruction::Trap, active);
    lemma_bounded_new_block(v2, active);
    lemma_bounded_push_to(v3, branching, sp_branch(lhs, rhs, is_eq, after as u32), active);
}

/// Compiling an allocation keeps the breaks bounded.
proof fn lemma_bounded_alloc(v: CompilerView, ptr: Ptr, len: Usize, size: int, active: Set<u32>)
    requires
        breaks_bounded(v, active),
        v.blocks.len() >= 1,
    ensures
        breaks_bounded(sp_alloc(v, ptr, len, size), active),
{
    match len {
        Usize::Const(c) => {
            let v1 = sp_push(v, AsmInstruction::AddFI(ptr_fp(ptr), HEAP_PTR, 0));
            lemma_bounded_push(v, AsmInstruction::AddFI(ptr_fp(ptr), HEAP_PTR, 0), active);
            lemma_bounded_push(
                v1,
                AsmInstruction::AddFI(HEAP_PTR, HEAP_PTR, fmul(c as int, size) as u32),
                active,
            );
        },
        Usize::Var(lv) => {
            let v1 = sp_push(v, AsmInstruction::AddFI(ptr_fp(ptr), HEAP_PTR, 0));
            let v2 = sp_push(v1, AsmInstruction::MulFI(A0, var_fp(lv), size as u32));
            lemma_bounded_push(v, AsmInstruction::AddFI(ptr_fp(ptr), HEAP_PTR, 0), active);
            lemma_bounded_push(v1, AsmInstruction::MulFI(A0, var_fp(lv), size as u32), active);
            lemma_bounded_push(v2, AsmInstruction::AddF(HEAP_PTR, HEAP_PTR, A0), active);
        },
    }
}

/// Resolving one label removes it from the bound: every surviving break
/// carries some other active label.
proof fn lemma_bounded_resolve(v: CompilerView, label: u32, target: u32, active: Set<u32>)
    requires
        breaks_tracked(v),
        breaks_bounded(v, active),
    ensures
        breaks_bounded(sp_resolve_breaks(v, label, target), active.remove(label)),
{
    theorem_resolve_breaks_exact(v, label, target);
    let r = sp_resolve_breaks(v, label, target);
    assert forall|b: int, k: int|
        0 <= b < r.blocks.len() && 0 <= k < r.blocks[b].len() && (#[trigger] r.blocks[b][k])
            is Break implies active.remove(label).contains(r.blocks[b][k]->Break_0) by {
        assert(r.blocks[b][k] == (if v.blocks[b][k] == AsmInstruction::Break(label) {
            AsmInstruction::Jump(target)
        } else {
            v.blocks[b][k]
        }));
    }
}

/// Compiling one accepted operation keeps every break bounded by the
/// active labels; see [`theorem_build_no_stray_breaks`].
#[verifier::rlimit(100)]
#[verifier::spinoff_prover]
proof fn lemma_strays_build_op(v: CompilerView, op: DslIr, active: Set<u32>)
    requires
        v.wf(),
        breaks_tracked(v),
        breaks_bounded(v, active),
        forall|l: u32| active.contains(l) ==> (l as int) < v.break_label_map.len(),
        (v.break_label matches Some(t) ==> active.contains(t)),
        op_check(op, v.break_label is Some) is None,
        v.blocks.len() + 3 * ir_size(op) <= FIELD_MODULUS as int,
        v.break_label_map.len() + ir_size(op) <= FIELD_MODULUS as int,
    ensures
        breaks_bounded(sp_build_op(v, op), active),
    decreases ir_size(op), 0nat,
{
    reveal(sp_build_op);
    reveal(op_check);
    assert forall|i0: AsmInstruction| !(i0 is Break) implies breaks_bounded(
        #[trigger] sp_push(v, i0),
        active,
    ) by {
        lemma_bounded_push(v, i0, active);
    }
    assert forall|l0: i32, r0: ValueOrConst, e0: bool|
        breaks_bounded(#[trigger] sp_assert(v, l0, r0, e0), active) by {
        lemma_bounded_assert(v, l0, r0, e0, active);
    }
    assert forall|p0: Ptr, ln0: Usize, s0: int|
        breaks_bounded(#[trigger] sp_alloc(v, p0, ln0, s0), active) by {
        lemma_bounded_alloc(v, p0, ln0, s0, active);
    }
    match op {
        DslIr::IfEq(l, r, t, e) => {
            if e@.len() == 0 {
                lemma_strays_then(v, var_fp(l), ValueOrConst::Val(var_fp(r)), true, t@, active);
            } else {
                lemma_strays_then_or_else(
                    v,
                    var_fp(l),
                    ValueOrConst::Val(var_fp(r)),
                    true,
                    t@,
                    e@,
                    active,
                );
            }
        },
        DslIr::IfNe(l, r, t, e) => {
            if e@.len() == 0 {
                lemma_strays_then(v, var_fp(l), ValueOrConst::Val(var_fp(r)), false, t@, active);
            } else {
                lemma_strays_then_or_else(
                    v,
                    var_fp(l),
                    ValueOrConst::Val(var_fp(r)),
                    false,
                    t@,
                    e@,
                    active,
                );
            }
        },
        DslIr::IfEqI(l, r, t, e) => {
            if e@.len() == 0 {
                lemma_strays_then(v, var_fp(l), ValueOrConst::Const(r), true, t@, active);
            } else {
                lemma_strays_then_or_else(
                    v,
                    var_fp(l),
                    ValueOrConst::Const(r),
                    true,
                    t@,
                    e@,
                    active,
                );
            }
        },
        DslIr::IfNeI(l, r, t, e) => {
            if e@.len() == 0 {
                lemma_strays_then(v, var_fp(l), ValueOrConst::Const(r), false, t@, active);
            } else {
                lemma_strays_then_or_else(
                    v,
                    var_fp(l),
                    ValueOrConst::Const(r),
                    false,
                    t@,
                    e@,
                    active,
                );
            }
        },
        DslIr::For(start, end, step, lv, body) => {
            lemma_strays_for(v, start, end, step, lv, body@, active);
        },
        DslIr::Break => {
            let t = v.break_label->0;
            let cur = v.cur_label() as u32;
            let vm = sp_mark_break(v, cur);
            assert(vm.blocks == v.blocks);
            assert(breaks_bounded(vm, active));
            lemma_bounded_push(vm, AsmInstruction::Break(t), active);
        },
        _ => {},
    }
}

/// Compiling an accepted sequence keeps every break bounded; see
/// [`theorem_build_no_stray_breaks`].
proof fn lemma_strays_build_ops(v: CompilerView, ops: Seq<DslIr>, active: Set<u32>)
    requires
        v.wf(),
        breaks_tracked(v),
        breaks_bounded(v, active),
        forall|l: u32| active.contains(l) ==> (l as int) < v.break_label_map.len(),
        (v.break_label matches Some(t) ==> active.contains(t)),
        seq_check(ops, v.break_label is Some) is None,
        v.blocks.len() + 3 * seq_ir_size(ops) <= FIELD_MODULUS as int,
        v.break_label_map.len() + seq_ir_size(ops) <= FIELD_MODULUS as int,
    ensures
        breaks_bounded(sp_build_ops(v, ops), active),
    decreases seq_ir_size(ops), 1nat,
{
    if ops.len() != 0 {
        reveal(sp_build_op);
        reveal(op_check);
        crate::ir::lemma_ir_size_pos(ops[0]);
        lemma_frame_build_op(v, ops[0]);
        lemma_tracked_build_op(v, ops[0]);
        lemma_strays_build_op(v, ops[0], active);
        let v1 = sp_build_op(v, ops[0]);
        assert(seq_check(ops.drop_first(), v1.break_label is Some) is None);
        lemma_strays_build_ops(v1, ops.drop_first(), active);
        assert(sp_build_ops(v, ops) == sp_build_ops(v1, ops.drop_first()));
    }
}

/// One accepted `build` pass keeps every break bounded; see
/// [`theorem_build_no_stray_breaks`].
proof fn lemma_strays_build(v: CompilerView, ops: Seq<DslIr>, active: Set<u32>)
    requires
        v.wf(),
        breaks_tracked(v),
        breaks_bounded(v, active),
        forall|l: u32| active.contains(l) ==> (l as int) < v.break_label_map.len(),
        (v.break_label matches Some(t) ==> active.contains(t)),
        seq_check(ops, v.break_label is Some) is None,
        v.blocks.len() + 3 * seq_ir_size(ops) <= FIELD_MODULUS as int,
        v.break_label_map.len() + seq_ir_size(ops) <= FIELD_MODULUS as int,
    ensures
        breaks_bounded(sp_build(v, ops), active),
    decreases seq_ir_size(ops), 2nat,
{
    let v0 = sp_heap_init(v);
    if v.cur_label() == 0 {
        lemma_tracked_push(v, AsmInstruction::ImmF(HEAP_PTR, HEAP_START));
        lemma_bounded_push(v, AsmInstruction::ImmF(HEAP_PTR, HEAP_START), active);
    }
    assert(v0.wf());
    assert(breaks_tracked(v0));
    lemma_strays_build_ops(v0, ops, active);
}

/// Compiling an accepted single-branch conditional keeps every break
/// bounded; see [`theorem_build_no_stray_breaks`].
proof fn lemma_strays_then(
    v: CompilerView,
    lhs: i32,
    rhs: ValueOrConst,
    is_eq: bool,
    body: Seq<DslIr>,
    active: Set<u32>,
)
    requires
        v.wf(),
        breaks_tracked(v),
        breaks_bounded(v, active),
        forall|l: u32| active.contains(l) ==> (l as int) < v.break_label_map.len(),
        (v.break_label matches Some(t) ==> active.contains(t)),
        seq_check(body, v.break_label is Some) is None,
        v.blocks.len() + 2 + 3 * seq_ir_size(body) <= FIELD_MODULUS as int,
        v.break_label_map.len() + seq_ir_size(body) <= FIELD_MODULUS as int,
    ensures
        breaks_bounded(sp_then(v, lhs, rhs, is_eq, body), active),
    decreases seq_ir_size(body), 3nat,
{
    let branching = v.cur_label();
    let v1 = sp_new_block(v);
    assert(v1.wf());
    lemma_tracked_new_block(v);
    lemma_bounded_new_block(v, active);
    lemma_frame_build(v1, body);
    lemma_strays_build(v1, body, active);
    let v2 = sp_build(v1, body);
    let v3 = sp_new_block(v2);
    let after = v3.cur_label();
    lemma_bounded_new_block(v2, active);
    lemma_bounded_push_to(v3, branching, sp_branch(lhs, rhs, is_eq, after as u32), active);
}

/// Compiling an accepted two-branch conditional keeps every break bounded;
/// see [`theorem_build_no_stray_breaks`].
proof fn lemma_strays_then_or_else(
    v: CompilerView,
    lhs: i32,
    rhs: ValueOrConst,
    is_eq: bool,
    then_body: Seq<DslIr>,
    else_body: Seq<DslIr>,
    active: Set<u32>,
)
    requires
        v.wf(),
        breaks_tracked(v),
        breaks_bounded(v, active),
        forall|l: u32| active.contains(l) ==> (l as int) < v.break_label_map.len(),
        (v.break_label matches Some(t) ==> active.contains(t)),
        seq_check(then_body, v.break_label is Some) is None,
        seq_check(else_body, v.break_label is Some) is None,
        v.blocks.len() + 3 + 3 * (seq_ir_size(then_body) + seq_ir_size(else_body))
            <= FIELD_MODULUS as int,
        v.break_label_map.len() + seq_ir_size(then_body) + seq_ir_size(else_body)
            <= FIELD_MODULUS as int,
    ensures
        breaks_bounded(sp_then_or_else(v, lhs, rhs, is_eq, then_body, else_body), active),
    decreases seq_ir_size(then_body) + seq_ir_size(else_body), 3nat,
{
    let branching = v.cur_label();
    let v1 = sp_new_block(v);
    assert(v1.wf());
    lemma_tracked_new_block(v);
    lemma_bounded_new_block(v, active);
    lemma_frame_build(v1, then_body);
    lemma_tracked_build(v1, then_body);
    lemma_strays_build(v1, then_body, active);
    let v2 = sp_build(v1, then_body);
    let last_if = v2.cur_label();
    let v3 = sp_new_block(v2);
    let else_block = v3.cur_label();
    assert(v3.wf());
    lemma_tracked_new_block(v2);
    lemma_bounded_new_block(v2, active);
    lemma_frame_build(v3, else_body);
    lemma_strays_build(v3, else_body, active);
    let v4 = sp_build(v3, else_body);
    let v5 = sp_push_to(v4, branching, sp_branch(lhs, rhs, is_eq, else_block as u32));
    lemma_bounded_push_to(v4, branching, sp_branch(lhs, rhs, is_eq, else_block as u32), active);
    let v6 = sp_new_block(v5);
    let main_flow = v6.cur_label();
    lemma_bounded_new_block(v5, active);
    lemma_bounded_push_to(v6, last_if, AsmInstruction::Jump(main_flow as u32), active);
}

/// Compiling an accepted loop leaves every break bounded by the labels
/// active *around* it: its own fresh label is resolved away; see
/// [`theorem_build_no_stray_breaks`].
proof fn lemma_strays_for(
    v: CompilerView,
    start: Usize,
    end: Usize,
    step: u32,
    lv: Var,
    body: Seq<DslIr>,
    active: Set<u32>,
)
    requires
        v.wf(),
        breaks_tracked(v),
        breaks_bounded(v, active),
        forall|l: u32| active.contains(l) ==> (l as int) < v.break_label_map.len(),
        (v.break_label matches Some(t) ==> active.contains(t)),
        seq_check(body, true) is None,
        v.blocks.len() + 3 + 3 * seq_ir_size(body) <= FIELD_MODULUS as int,
        v.break_label_map.len() + 1 + seq_ir_size(body) <= FIELD_MODULUS as int,
    ensures
        breaks_bounded(sp_for(v, start, end, step, lv, body), active),
    decreases seq_ir_size(body), 3nat,
{
    let v1 = sp_set_loop_var(v, start, lv);
    match start {
        Usize::Const(c) => {
            lemma_tracked_push(v, AsmInstruction::ImmF(var_fp(lv), c as u32));
            lemma_bounded_push(v, AsmInstruction::ImmF(var_fp(lv), c as u32), active);
        },
        Usize::Var(sv) => {
            lemma_tracked_push(v, AsmInstruction::AddFI(var_fp(lv), var_fp(sv), 0));
            lemma_bounded_push(v, AsmInstruction::AddFI(var_fp(lv), var_fp(sv), 0), active);
        },
    }
    let loop_call = v1.cur_label();
    let bl = v1.break_label_map.len() as u32;
    assert(!active.contains(bl));
    let wide = active.insert(bl);
    let v2 = CompilerView {
        break_label: Some(bl),
        break_label_map: v1.break_label_map.push(None),
        ..v1
    };
    assert(v2.blocks == v1.blocks && v2.contains_break == v1.contains_break);
    assert(breaks_tracked(v2));
    lemma_bounded_widen(v1, active, wide);
    assert(breaks_bounded(v2, wide));
    let v3 = sp_new_block(v2);
    assert(v3.wf());
    lemma_tracked_new_block(v2);
    lemma_bounded_new_block(v2, wide);
    lemma_frame_build(v3, body);
    lemma_tracked_build(v3, body);
    lemma_strays_build(v3, body, wide);
    let v4 = sp_build(v3, body);
    let loop_label = v3.cur_label() as u32;
    let v5 = if step == 1 {
        sp_jump_to_loop_body_inc(v4, end, lv, loop_label)
    } else {
        sp_push(v4, AsmInstruction::AddFI(var_fp(lv), var_fp(lv), step))
    };
    if step == 1 {
        match end {
            Usize::Const(c) => {
                lemma_tracked_push(v4, AsmInstruction::BneIInc(loop_label, var_fp(lv), c as u32));
                lemma_bounded_push(
                    v4,
                    AsmInstruction::BneIInc(loop_label, var_fp(lv), c as u32),
                    wide,
                );
            },
            Usize::Var(ev) => {
                lemma_tracked_push(
                    v4,
                    AsmInstruction::BneInc(loop_label, var_fp(lv), var_fp(ev)),
                );
                lemma_bounded_push(
                    v4,
                    AsmInstruction::BneInc(loop_label, var_fp(lv), var_fp(ev)),
                    wide,
                );
            },
        }
    } else {
        lemma_tracked_push(v4, AsmInstruction::AddFI(var_fp(lv), var_fp(lv), step));
        lemma_bounded_push(v4, AsmInstruction::AddFI(var_fp(lv), var_fp(lv), step), wide);
    }
    let v6 = sp_new_block(v5);
    lemma_tracked_new_block(v5);
    lemma_bounded_new_block(v5, wide);
    let v7 = sp_jump_to_loop_body(v6, end, lv, loop_label);
    match end {
        Usize::Const(c) => {
            lemma_tracked_push(v6, AsmInstruction::BneI(loop_label, var_fp(lv), c as u32));
            lemma_bounded_push(v6, AsmInstruction::BneI(loop_label, var_fp(lv), c as u32), wide);
        },
        Usize::Var(ev) => {
            lemma_tracked_push(v6, AsmInstruction::Bne(loop_label, var_fp(lv), var_fp(ev)));
            lemma_bounded_push(v6, AsmInstruction::Bne(loop_label, var_fp(lv), var_fp(ev)), wide);
        },
    }
    let cond_label = v7.cur_label() as u32;
    let v8 = sp_push_to(v7, loop_call, AsmInstruction::Jump(cond_label));
    lemma_tracked_push_to(v7, loop_call, AsmInstruction::Jump(cond_label));
    lemma_bounded_push_to(v7, loop_call, AsmInstruction::Jump(cond_label), wide);
    let v9 = sp_new_block(v8);
    lemma_tracked_new_block(v8);
    lemma_bounded_new_block(v8, wide);
    let after = v9.cur_label() as u32;
    let v10 = CompilerView {
        break_label: v.break_label,
        break_label_map: v9.break_label_map.update(bl as int, Some(after)),
        ..v9
    };
    assert(v10.blocks == v9.blocks && v10.contains_break == v9.contains_break);
    assert(breaks_tracked(v10));
    assert(breaks_bounded(v10, wide));
    lemma_bounded_resolve(v10, bl, after, wide);
    assert(wide.remove(bl) =~= active);
}

/// The block label a branch or jump transfers to, if any.
pub open spec fn branch_target(i: AsmInstruction) -> Option<u32> {
    match i {
        AsmInstruction::Beq(l, _, _) => Some(l),
        AsmInstruction::BeqI(l, _, _) => Some(l),
        AsmInstruction::Bne(l, _, _) => Some(l),
        AsmInstruction::BneI(l, _, _) => Some(l),
        AsmInstruction::BeqE(l, _, _) => Some(l),
        AsmInstruction::BeqEI(l, _, _) => Some(l),
        AsmInstruction::BneE(l, _, _) => Some(l),
        AsmInstruction::BneEI(l, _, _) => Some(l),
        AsmInstruction::BneInc(l, _, _) => Some(l),
        AsmInstruction::BneIInc(l, _, _) => Some(l),
        AsmInstruction::Jump(l) => Some(l),
        _ => None,
    }
}

/// Every branch or jump in the program names an existing block.
pub open spec fn targets_bounded(v: CompilerView) -> bool {
    forall|b: int, k: int|
        0 <= b < v.blocks.len() && 0 <= k < v.blocks[b].len() ==> (branch_target(
            #[trigger] v.blocks[b][k],
        ) matches Some(t) ==> (t as int) < v.blocks.len())
}

/// Appending an instruction that names an existing block keeps targets
/// bounded.
proof fn lemma_tgt_push(v: CompilerView, i: AsmInstruction)
    requires
        targets_bounded(v),
        (branch_target(i) matches Some(t) ==> (t as int) < v.blocks.len()),
        v.blocks.len() >= 1,
    ensures
        targets_bounded(sp_push(v, i)),
{
    let r = sp_push(v, i);
    assert forall|b: int, k: int|
        0 <= b < r.blocks.len() && 0 <= k < r.blocks[b].len() implies (branch_target(
            #[trigger] r.blocks[b][k],
        ) matches Some(t) ==> (t as int) < r.blocks.len()) by {
        if b == v.cur_label() && k == v.blocks[b].len() {
            assert(r.blocks[b][k] == i);
        } else {
            assert(r.blocks[b][k] == v.blocks[b][k]);
        }
    }
}

/// Patching an instruction that names an existing block keeps targets
/// bounded.
proof fn lemma_tgt_push_to(v: CompilerView, label: int, i: AsmInstruction)
    requires
        targets_bounded(v),
        (branch_target(i) matches Some(t) ==> (t as int) < v.blocks.len()),
        0 <= label < v.blocks.len(),
    ensures
        targets_bounded(sp_push_to(v, label, i)),
{
    let r = sp_push_to(v, label, i);
    assert forall|b: int, k: int|
        0 <= b < r.blocks.len() && 0 <= k < r.blocks[b].len() implies (branch_target(
            #[trigger] r.blocks[b][k],
        ) matches Some(t) ==> (t as int) < r.blocks.len()) by {
        if b == label && k == v.blocks[b].len() {
            assert(r.blocks[b][k] == i);
        } else {
            assert(r.blocks[b][k] == v.blocks[b][k]);
        }
    }
}

/// Opening a fresh block keeps targets bounded: the block list only grows.
proof fn lemma_tgt_new_block(v: CompilerView)
    requires
        targets_bounded(v),
    ensures
        targets_bounded(sp_new_block(v)),
{
    let r = sp_new_block(v);
    assert forall|b: int, k: int|
        0 <= b < r.blocks.len() && 0 <= k < r.blocks[b].len() implies (branch_target(
            #[trigger] r.blocks[b][k],
        ) matches Some(t) ==> (t as int) < r.blocks.len()) by {
        assert(b < v.blocks.len());
        assert(r.blocks[b][k] == v.blocks[b][k]);
    }
}

/// Compiling an assertion branches to the block created just before the
/// patch, keeping targets bounded.
proof fn lemma_tgt_assert(v: CompilerView, lhs: i32, rhs: ValueOrConst, is_eq: bool)
    requires
        targets_bounded(v),
        v.wf(),
        v.blocks.len() + 2 <= FIELD_MODULUS as int,
    ensures
        targets_bounded(sp_assert(v, lhs, rhs, is_eq)),
{
    let branching = v.cur_label();
    let v1 = sp_new_block(v);
    let v2 = sp_push(v1, AsmInstruction::Trap);
    let v3 = sp_new_block(v2);
    let after = v3.cur_label();
    lemma_tgt_new_block(v);
    lemma_tgt_push(v1, AsmInstruction::Trap);
    lemma_tgt_new_block(v2);
    lemma_tgt_push_to(v3, branching, sp_branch(lhs, rhs, is_eq, after as u32));
}

/// Compiling an allocation emits no control transfer, keeping targets
/// bounded.
proof fn lemma_tgt_alloc(v: CompilerView, ptr: Ptr, len: Usize, size: int)
    requires
        targets_bounded(v),
        v.blocks.len() >= 1,
    ensures
        targets_bounded(sp_alloc(v, ptr, len, size)),
{
    match len {
        Usize::Const(c) => {
            let v1 = sp_push(v, AsmInstruction::AddFI(ptr_fp(ptr), HEAP_PTR, 0));
            lemma_tgt_push(v, AsmInstruction::AddFI(ptr_fp(ptr), HEAP_PTR, 0));
            lemma_tgt_push(
                v1,
                AsmInstruction::AddFI(HEAP_PTR, HEAP_PTR, fmul(c as int, size) as u32),
            );
        },
        Usize::Var(lv) => {
            let v1 = sp_push(v, AsmInstruction::AddFI(ptr_fp(ptr), HEAP_PTR, 0));
            let v2 = sp_push(v1, AsmInstruction::MulFI(A0, var_fp(lv), size as u32));
            lemma_tgt_push(v, AsmInstruction::AddFI(ptr_fp(ptr), HEAP_PTR, 0));
            lemma_tgt_push(v1, AsmInstruction::MulFI(A0, var_fp(lv), size as u32));
            lemma_tgt_push(v2, AsmInstruction::AddF(HEAP_PTR, HEAP_PTR, A0));
        },
    }
}

/// Resolving a break label rewrites to jumps at an existing block, keeping
/// targets bounded.
proof fn lemma_tgt_resolve(v: CompilerView, label: u32, target: u32)
    requires
        targets_bounded(v),
        (target as int) < v.blocks.len(),
    ensures
        targets_bounded(sp_resolve_breaks(v, label, target)),
{
    let r = sp_resolve_breaks(v, label, target);
    assert forall|b: int, k: int|
        0 <= b < r.blocks.len() && 0 <= k < r.blocks[b].len() implies (branch_target(
            #[trigger] r.blocks[b][k],
        ) matches Some(t) ==> (t as int) < r.blocks.len()) by {
        if v.contains_break.contains(b as u32) {
            assert(r.blocks[b] == sp_rewrite_block(v.blocks[b], label, target));
            assert(r.blocks[b][k] == sp_rewrite_instr(v.blocks[b][k], label, target));
        } else {
            assert(r.blocks[b][k] == v.blocks[b][k]);
        }
    }
}

/// Compiling one operation keeps targets bounded; see
/// [`theorem_build_targets_valid`].
#[verifier::rlimit(100)]
#[verifier::spinoff_prover]
proof fn lemma_tgt_build_op(v: CompilerView, op: DslIr)
    requires
        v.wf(),
        targets_bounded(v),
        v.blocks.len() + 3 * ir_size(op) <= FIELD_MODULUS as int,
        v.break_label_map.len() + ir_size(op) <= FIELD_MODULUS as int,
    ensures
        targets_bounded(sp_build_op(v, op)),
    decreases ir_size(op), 0nat,
{
    reveal(sp_build_op);
    assert forall|i0: AsmInstruction| branch_target(i0) is None implies targets_bounded(
        #[trigger] sp_push(v, i0),
    ) by {
        lemma_tgt_push(v, i0);
    }
    assert forall|l0: i32, r0: ValueOrConst, e0: bool|
        targets_bounded(#[trigger] sp_assert(v, l0, r0, e0)) by {
        lemma_tgt_assert(v, l0, r0, e0);
    }
    assert forall|p0: Ptr, ln0: Usize, s0: int|
        targets_bounded(#[trigger] sp_alloc(v, p0, ln0, s0)) by {
        lemma_tgt_alloc(v, p0, ln0, s0);
    }
    match op {
        DslIr::IfEq(l, r, t, e) => {
            if e@.len() == 0 {
                lemma_tgt_then(v, var_fp(l), ValueOrConst::Val(var_fp(r)), true, t@);
            } else {
                lemma_tgt_then_or_else(v, var_fp(l), ValueOrConst::Val(var_fp(r)), true, t@, e@);
            }
        },
        DslIr::IfNe(l, r, t, e) => {
            if e@.len() == 0 {
                lemma_tgt_then(v, var_fp(l), ValueOrConst::Val(var_fp(r)), false, t@);
            } else {
                lemma_tgt_then_or_else(v, var_fp(l), ValueOrConst::Val(var_fp(r)), false, t@, e@);
            }
        },
        DslIr::IfEqI(l, r, t, e) => {
            if e@.len() == 0 {
                lemma_tgt_then(v, var_fp(l), ValueOrConst::Const(r), true, t@);
            } else {
                lemma_tgt_then_or_else(v, var_fp(l), ValueOrConst::Const(r), true, t@, e@);
            }
        },
        DslIr::IfNeI(l, r, t, e) => {
            if e@.len() == 0 {
                lemma_tgt_then(v, var_fp(l), ValueOrConst::Const(r), false, t@);
            } else {
                lemma_tgt_then_or_else(v, var_fp(l), ValueOrConst::Const(r), false, t@, e@);
            }
        },
        DslIr::For(start, end, step, lv, body) => {
            lemma_tgt_for(v, start, end, step, lv, body@);
        },
        DslIr::Break => {
            let cur = v.cur_label() as u32;
            let vm = sp_mark_break(v, cur);
            assert(vm.blocks == v.blocks);
            assert(targets_bounded(vm));
            lemma_tgt_push(vm, AsmInstruction::Break(v.break_label->0));
        },
        _ => {},
    }
}

/// Compiling a sequence keeps targets bounded; see
/// [`theorem_build_targets_valid`].
proof fn lemma_tgt_build_ops(v: CompilerView, ops: Seq<DslIr>)
    requires
        v.wf(),
        targets_bounded(v),
        v.blocks.len() + 3 * seq_ir_size(ops) <= FIELD_MODULUS as int,
        v.break_label_map.len() + seq_ir_size(ops) <= FIELD_MODULUS as int,
    ensures
        targets_bounded(sp_build_ops(v, ops)),
    decreases seq_ir_size(ops), 1nat,
{
    if ops.len() != 0 {
        reveal(sp_build_op);
        crate::ir::lemma_ir_size_pos(ops[0]);
        lemma_frame_build_op(v, ops[0]);
        lemma_tgt_build_op(v, ops[0]);
        let v1 = sp_build_op(v, ops[0]);
        lemma_tgt_build_ops(v1, ops.drop_first());
        assert(sp_build_ops(v, ops) == sp_build_ops(v1, ops.drop_first()));
    }
}

/// One `build` pass keeps targets bounded; see
/// [`theorem_build_targets_valid`].
proof fn lemma_tgt_build(v: CompilerView, ops: Seq<DslIr>)
    requires
        v.wf(),
        targets_bounded(v),
        v.blocks.len() + 3 * seq_ir_size(ops) <= FIELD_MODULUS as int,
        v.break_label_map.len() + seq_ir_size(ops) <= FIELD_MODULUS as int,
    ensures
        targets_bounded(sp_build(v, ops)),
    decreases seq_ir_size(ops), 2nat,
{
    let v0 = sp_heap_init(v);
    if v.cur_label() == 0 {
        lemma_tgt_push(v, AsmInstruction::ImmF(HEAP_PTR, HEAP_START));
    }
    assert(v0.wf());
    lemma_tgt_build_ops(v0, ops);
}

/// Compiling a single-branch conditional keeps targets bounded; see
/// [`theorem_build_targets_valid`].
proof fn lemma_tgt_then(
    v: CompilerView,
    lhs: i32,
    rhs: ValueOrConst,
    is_eq: bool,
    body: Seq<DslIr>,
)
    requires
        v.wf(),
        targets_bounded(v),
        v.blocks.len() + 2 + 3 * seq_ir_size(body) <= FIELD_MODULUS as int,
        v.break_label_map.len() + seq_ir_size(body) <= FIELD_MODULUS as int,
    ensures
        targets_bounded(sp_then(v, lhs, rhs, is_eq, body)),
    decreases seq_ir_size(body), 3nat,
{
    let branching = v.cur_label();
    let v1 = sp_new_block(v);
    assert(v1.wf());
    lemma_tgt_new_block(v);
    lemma_frame_build(v1, body);
    lemma_tgt_build(v1, body);
    let v2 = sp_build(v1, body);
    let v3 = sp_new_block(v2);
    let after = v3.cur_label();
    lemma_tgt_new_block(v2);
    lemma_tgt_push_to(v3, branching, sp_branch(lhs, rhs, is_eq, after as u32));
}

/// Compiling a two-branch conditional keeps targets bounded; see
/// [`theorem_build_targets_valid`].
proof fn lemma_tgt_then_or_else(
    v: CompilerView,
    lhs: i32,
    rhs: ValueOrConst,
    is_eq: bool,
    then_body: Seq<DslIr>,
    else_body: Seq<DslIr>,
)
    requires
        v.wf(),
        targets_bounded(v),
        v.blocks.len() + 3 + 3 * (seq_ir_size(then_body) + seq_ir_size(else_body))
            <= FIELD_MODULUS as int,
        v.break_label_map.len() + seq_ir_size(then_body) + seq_ir_size(else_body)
            <= FIELD_MODULUS as int,
    ensures
        targets_bounded(sp_then_or_else(v, lhs, rhs, is_eq, then_body, else_body)),
    decreases seq_ir_size(then_body) + seq_ir_size(else_body), 3nat,
{
    let branching = v.cur_label();
    let v1 = sp_new_block(v);
    assert(v1.wf());
    lemma_tgt_new_block(v);
    lemma_frame_build(v1, then_body);
    lemma_tgt_build(v1, then_body);
    let v2 = sp_build(v1, then_body);
    let last_if = v2.cur_label();
    let v3 = sp_new_block(v2);
    let else_block = v3.cur_label();
    assert(v3.wf());
    lemma_tgt_new_block(v2);
    lemma_frame_build(v3, else_body);
    lemma_tgt_build(v3, else_body);
    let v4 = sp_build(v3, else_body);
    let v5 = sp_push_to(v4, branching, sp_branch(lhs, rhs, is_eq, else_block as u32));
    lemma_tgt_push_to(v4, branching, sp_branch(lhs, rhs, is_eq, else_block as u32));
    let v6 = sp_new_block(v5);
    let main_flow = v6.cur_label();
    lemma_tgt_new_block(v5);
    lemma_tgt_push_to(v6, last_if, AsmInstruction::Jump(main_flow as u32));
}

/// Compiling a loop keeps targets bounded; see
/// [`theorem_build_targets_valid`].
proof fn lemma_tgt_for(
    v: CompilerView,
    start: Usize,
    end: Usize,
    step: u32,
    lv: Var,
    body: Seq<DslIr>,
)
    requires
        v.wf(),
        targets_bounded(v),
        v.blocks.len() + 3 + 3 * seq_ir_size(body) <= FIELD_MODULUS as int,
        v.break_label_map.len() + 1 + seq_ir_size(body) <= FIELD_MODULUS as int,
    ensures
        targets_bounded(sp_for(v, start, end, step, lv, body)),
    decreases seq_ir_size(body), 3nat,
{
    let v1 = sp_set_loop_var(v, start, lv);
    match start {
        Usize::Const(c) => {
            lemma_tgt_push(v, AsmInstruction::ImmF(var_fp(lv), c as u32));
        },
        Usize::Var(sv) => {
            lemma_tgt_push(v, AsmInstruction::AddFI(var_fp(lv), var_fp(sv), 0));
        },
    }
    let loop_call = v1.cur_label();
    let bl = v1.break_label_map.len() as u32;
    let v2 = CompilerView {
        break_label: Some(bl),
        break_label_map: v1.break_label_map.push(None),
        ..v1
    };
    assert(v2.blocks == v1.blocks);
    assert(targets_bounded(v2));
    let v3 = sp_new_block(v2);
    assert(v3.wf());
    lemma_tgt_new_block(v2);
    lemma_frame_build(v3, body);
    lemma_tgt_build(v3, body);
    let v4 = sp_build(v3, body);
    let loop_label = v3.cur_label() as u32;
    let v5 = if step == 1 {
        sp_jump_to_loop_body_inc(v4, end, lv, loop_label)
    } else {
        sp_push(v4, AsmInstruction::AddFI(var_fp(lv), var_fp(lv), step))
    };
    if step == 1 {
        match end {
            Usize::Const(c) => {
                lemma_tgt_push(v4, AsmInstruction::BneIInc(loop_label, var_fp(lv), c as u32));
            },
            Usize::Var(ev) => {
                lemma_tgt_push(v4, AsmInstruction::BneInc(loop_label, var_fp(lv), var_fp(ev)));
            },
        }
    } else {
        lemma_tgt_push(v4, AsmInstruction::AddFI(var_fp(lv), var_fp(lv), step));
    }
    let v6 = sp_new_block(v5);
    lemma_tgt_new_block(v5);
    let v7 = sp_jump_to_loop_body(v6, end, lv, loop_label);
    match end {
        Usize::Const(c) => {
            lemma_tgt_push(v6, AsmInstruction::BneI(loop_label, var_fp(lv), c as u32));
        },
        Usize::Var(ev) => {
            lemma_tgt_push(v6, AsmInstruction::Bne(loop_label, var_fp(lv), var_fp(ev)));
        },
    }
    let cond_label = v7.cur_label() as u32;
    let v8 = sp_push_to(v7, loop_call, AsmInstruction::Jump(cond_label));
    lemma_tgt_push_to(v7, loop_call, AsmInstruction::Jump(cond_label));
    let v9 = sp_new_block(v8);
    lemma_tgt_new_block(v8);
    let after = v9.cur_label() as u32;
    let v10 = CompilerView {
        break_label: v.break_label,
        break_label_map: v9.break_label_map.update(bl as int, Some(after)),
        ..v9
    };
    assert(v10.blocks == v9.blocks);
    assert(targets_bounded(v10));
    lemma_tgt_resolve(v10, bl, after);
}

/// LAW (branch targets resolve): every branch or jump a compilation emits
/// names a block that exists by the time the pass returns, so the block
/// list hands the assembler no dangling label.
pub proof fn theorem_build_targets_valid(v: CompilerView, ops: Seq<DslIr>)
    requires
        v.wf(),
        targets_bounded(v),
        v.blocks.len() + 3 * seq_ir_size(ops) <= FIELD_MODULUS as int,
        v.break_label_map.len() + seq_ir_size(ops) <= FIELD_MODULUS as int,
    ensures
        targets_bounded(sp_build(v, ops)),
{
    lemma_tgt_build(v, ops);
}

/// LAW (accepted builds leave no stray break): a top-level compilation that
/// the eligibility check accepts -- every break inside some loop -- leaves
/// no abstract break anywhere in the block list: each was rewritten into a
/// jump by the loop that owns it. Assembly of an accepted build therefore
/// never meets an unresolved break.
pub proof fn theorem_build_no_stray_breaks(v: CompilerView, ops: Seq<DslIr>)
    requires
        v.wf(),
        breaks_tracked(v),
        breaks_bounded(v, Set::empty()),
        v.break_label is None,
        seq_check(ops, false) is None,
        v.blocks.len() + 3 * seq_ir_size(ops) <= FIELD_MODULUS as int,
        v.break_label_map.len() + seq_ir_size(ops) <= FIELD_MODULUS as int,
    ensures
        ({
            let r = sp_build(v, ops);
            forall|b: int, k: int|
                0 <= b < r.blocks.len() && 0 <= k < r.blocks[b].len() ==> !((
                #[trigger] r.blocks[b][k]) is Break)
        }),
{
    lemma_strays_build(v, ops, Set::empty());
    let r = sp_build(v, ops);
    assert forall|b: int, k: int|
        0 <= b < r.blocks.len() && 0 <= k < r.blocks[b].len() implies !((
    #[trigger] r.blocks[b][k]) is Break) by {
        if r.blocks[b][k] is Break {
            assert(Set::<u32>::empty().contains(r.blocks[b][k]->Break_0));
        }
    }
}

/// LAW (accepted builds assemble): the code of an accepted top-level
/// compilation has no internal-consistency issue -- every branch or jump
/// names an existing block, and no abstract break remains -- so the
/// assembler's scan finds nothing to refuse. An assembly-time abort can
/// therefore only arise from code the compiler did not produce this way.
pub proof fn theorem_accepted_build_assembles(v: CompilerView, ops: Seq<DslIr>)
    requires
        v.wf(),
        breaks_tracked(v),
        breaks_bounded(v, Set::empty()),
        targets_bounded(v),
        v.break_label is None,
        seq_check(ops, false) is None,
        v.blocks.len() + 3 * seq_ir_size(ops) <= FIELD_MODULUS as int,
        v.break_label_map.len() + seq_ir_size(ops) <= FIELD_MODULUS as int,
    ensures
        code_issue(sp_build(v, ops).blocks, Seq::<(u32, Seq<char>)>::empty()) is None,
{
    theorem_build_no_stray_breaks(v, ops);
    theorem_build_targets_valid(v, ops);
    let r = sp_build(v, ops);
    assert forall|b: int, k: int|
        0 <= b < r.blocks.len() && 0 <= k < r.blocks[b].len() implies crate::assemble::instr_issue(
        #[trigger] r.blocks[b][k],
        r.blocks.len() as int,
    ) is None by {
        assert(!(r.blocks[b][k] is Break));
        assert(branch_target(r.blocks[b][k]) matches Some(t) ==> (t as int) < r.blocks.len());
    }
    crate::assemble::lemma_blocks_issue_none(r.blocks, r.blocks.len() as int);
}

/// LAW (break patching is exact): resolving a loop's break label rewrites
/// every abstract break carrying exactly that label into a jump to that
/// loop's after-block, and touches nothing else. An abstract break for any
/// other label -- in particular one belonging to an outer loop -- stays
/// exactly where it is, so control from a break can only ever be transferred
/// to the after-block of the loop that owns its label: the innermost
/// enclosing loop at the time the break was emitted. This is the final step
/// of compiling every loop, applied to the freshly allocated label and the
/// just-created after-block; the hypothesis holds of every reachable
/// compilation state by [`theorem_build_preserves_tracked`].
pub proof fn theorem_resolve_breaks_exact(v: CompilerView, label: u32, target: u32)
    requires
        breaks_tracked(v),
    ensures
        ({
            let r = sp_resolve_breaks(v, label, target);
            &&& r.blocks.len() == v.blocks.len()
            &&& forall|b: int|
                0 <= b < v.blocks.len() ==> (#[trigger] r.blocks[b]).len() == v.blocks[b].len()
            &&& forall|b: int, k: int|
                0 <= b < v.blocks.len() && 0 <= k < v.blocks[b].len() ==> (
                #[trigger] r.blocks[b][k]) == (if v.blocks[b][k] == AsmInstruction::Break(label) {
                    AsmInstruction::Jump(target)
                } else {
                    v.blocks[b][k]
                })
            &&& r.break_label == v.break_label
            &&& r.break_label_map == v.break_label_map
            &&& r.contains_break == v.contains_break
            &&& r.function_labels == v.function_labels
        }),
{
    let r = sp_resolve_breaks(v, label, target);
    assert forall|b: int, k: int|
        0 <= b < v.blocks.len() && 0 <= k < v.blocks[b].len() implies (#[trigger] r.blocks[b][k])
        == (if v.blocks[b][k] == AsmInstruction::Break(label) {
        AsmInstruction::Jump(target)
    } else {
        v.blocks[b][k]
    }) by {
        if v.contains_break.contains(b as u32) {
            assert(r.blocks[b] == sp_rewrite_block(v.blocks[b], label, target));
        } else {
            assert(!(v.blocks[b][k] is Break));
        }
    }
}

/// LAW (breaks fully resolved): after the rewrite, no abstract break for
/// the resolved label remains anywhere in the program.
pub proof fn theorem_no_break_remains(v: CompilerView, label: u32, target: u32)
    requires
        breaks_tracked(v),
    ensures
        ({
            let r = sp_resolve_breaks(v, label, target);
            forall|b: int, k: int|
                0 <= b < r.blocks.len() && 0 <= k < r.blocks[b].len() ==> (
                #[trigger] r.blocks[b][k]) != AsmInstruction::Break(label)
        }),
{
    theorem_resolve_breaks_exact(v, label, target);
}

/// LAW (determinism): compilation is a pure function of the compiler state
/// and the operation list. Re-compiling identical operations from identical
/// states yields identical block lists; together with the exact contract of
/// `build`, two runs of the compiler over the same input produce the same
/// program, instruction for instruction.
pub proof fn theorem_build_deterministic(
    v1: CompilerView,
    v2: CompilerView,
    ops1: Seq<DslIr>,
    ops2: Seq<DslIr>,
)
    requires
        v1 == v2,
        ops1 == ops2,
    ensures
        sp_build(v1, ops1) == sp_build(v2, ops2),
{
}

/// The assembly compiler.
#[derive(Clone, Debug)]
pub struct AsmCompiler {
    basic_blocks: Vec<BasicBlock>,
    break_label: Option<u32>,
    break_label_map: Vec<Option<u32>>,
    contains_break: Vec<u32>,
    function_labels: Vec<(String, u32)>,
}

impl View for AsmCompiler {
    type V = CompilerView;

    closed spec fn view(&self) -> CompilerView {
        CompilerView {
            blocks: self.basic_blocks@.map_values(|b: BasicBlock| b@),
            break_label: self.break_label,
            break_label_map: self.break_label_map@,
            contains_break: self.contains_break@,
            function_labels: self.function_labels@.map_values(|p: (String, u32)| (p.0@, p.1)),
        }
    }
}

impl AsmCompiler {
    /// Creates a new [`AsmCompiler`] holding one empty block and no labels.
    pub fn new() -> (r: AsmCompiler)
        ensures
            r@.blocks == seq![Seq::<AsmInstruction>::empty()],
            r@.break_label is None,
            r@.break_label_map == Seq::<Option<u32>>::empty(),
            r@.contains_break == Seq::<u32>::empty(),
            r@.function_labels == Seq::<(Seq<char>, u32)>::empty(),
            r@.wf(),
    {
        let mut blocks: Vec<BasicBlock> = Vec::new();
        blocks.push(BasicBlock::new());
        let r = AsmCompiler {
            basic_blocks: blocks,
            break_label: None,
            break_label_map: Vec::new(),
            contains_break: Vec::new(),
            function_labels: Vec::new(),
        };
        proof {
            assert(r@.blocks =~= seq![Seq::<AsmInstruction>::empty()]);
            assert(r@.function_labels =~= Seq::<(Seq<char>, u32)>::empty());
        }
        r
    }

    /// Allocates a fresh break label and makes it the one breaks resolve to.
    pub fn new_break_label(&mut self) -> (label: u32)
        requires
            old(self)@.break_label_map.len() < FIELD_MODULUS as int,
        ensures
            label as int == old(self)@.break_label_map.len(),
            final(self)@ == (CompilerView {
                break_label: Some(label),
                break_label_map: old(self)@.break_label_map.push(None),
                ..old(self)@
            }),
    {
        let label = self.break_label_map.len() as u32;
        self.break_label_map.push(None);
        self.break_label = Some(label);
        label
    }

    /// Opens a fresh basic block, which becomes current.
    fn basic_block(&mut self)
        ensures
            final(self)@ == sp_new_block(old(self)@),
    {
        self.basic_blocks.push(BasicBlock::new());
        proof {
            assert(final(self)@.blocks =~= sp_new_block(old(self)@).blocks);
            assert(final(self)@ =~= sp_new_block(old(self)@));
        }
    }

    /// The label of the current block.
    fn block_label(&mut self) -> (r: u32)
        requires
            old(self)@.wf(),
        ensures
            final(self)@ == old(self)@,
            r as int == old(self)@.cur_label(),
    {
        (self.basic_blocks.len() - 1) as u32
    }

    /// Appends an instruction to the block with the given label.
    fn push_to_block(&mut self, block_label: u32, instruction: AsmInstruction)
        requires
            (block_label as int) < old(self)@.blocks.len(),
        ensures
            final(self)@ == sp_push_to(old(self)@, block_label as int, instruction),
    {
        let idx = block_label as usize;
        self.basic_blocks[idx].push(instruction);
        proof {
            assert(final(self)@.blocks =~= sp_push_to(
                old(self)@,
                block_label as int,
                instruction,
            ).blocks);
            assert(final(self)@ =~= sp_push_to(old(self)@, block_label as int, instruction));
        }
    }

    /// Compiles a runtime assertion: a trap guarded by a branch whose sense
    /// is the *opposite* of the asserted comparison, so the common path
    /// falls through past the trap.
    pub fn emit_assert(&mut self, lhs: i32, rhs: ValueOrConst, is_eq: bool)
        requires
            old(self)@.wf(),
            old(self)@.blocks.len() + 2 <= FIELD_MODULUS as int,
        ensures
            final(self)@ == sp_assert(old(self)@, lhs, rhs, is_eq),
            final(self)@.wf(),
    {
        let if_branching_block = self.block_label();
        self.basic_block();
        self.push(AsmInstruction::Trap);
        self.basic_block();
        assert(self@.wf());
        let after_if_block = self.block_label();
        let instr = IfCompiler::branch(lhs, rhs, is_eq, after_if_block);
        self.push_to_block(if_branching_block, instr);
        assert(final(self)@.wf());
    }

    /// Compiles an allocation request: binds the pointer to the current heap
    /// pointer, then advances the heap pointer by length times element size.
    /// A constant length advances by an immediate product; a variable length
    /// goes through a multiply into the scratch slot.
    pub fn heap_alloc(&mut self, ptr: Ptr, len: Usize, size: usize)
        requires
            old(self)@.blocks.len() >= 1,
            ptr.address.0 <= MAX_VALUE_INDEX,
            len.wf(),
            size < FIELD_MODULUS,
        ensures
            final(self)@ == sp_alloc(old(self)@, ptr, len, size as int),
    {
        let size_f: u32 = size as u32;
        match len {
            Usize::Const(c) => {
                let c_f: u32 = c as u32;
                self.push(AsmInstruction::AddFI(ptr.fp(), HEAP_PTR, 0));
                self.push(AsmInstruction::AddFI(HEAP_PTR, HEAP_PTR, felt_mul(c_f, size_f)));
            },
            Usize::Var(len_v) => {
                self.push(AsmInstruction::AddFI(ptr.fp(), HEAP_PTR, 0));
                self.push(AsmInstruction::MulFI(A0, len_v.fp(), size_f));
                self.push(AsmInstruction::AddF(HEAP_PTR, HEAP_PTR, A0));
            },
        }
    }

    /// Emits the instructions of one straight-line operation into the
    /// current block, or refuses it. Structured control (`If`, `For`) is
    /// handled by the sub-compilers instead.
    fn build_op_flat(&mut self, op: &DslIr) -> (r: Result<(), CompileError>)
        requires
            old(self)@.wf(),
            op_wf(*op),
            !(*op is IfEq),
            !(*op is IfNe),
            !(*op is IfEqI),
            !(*op is IfNeI),
            !(*op is For),
            old(self)@.blocks.len() + 3 * ir_size(*op) <= FIELD_MODULUS as int,
        ensures
            r is Ok <==> op_check(*op, old(self)@.break_label is Some) is None,
            r is Ok ==> final(self)@ == sp_build_op(old(self)@, *op),
            r matches Err(e) ==> Some(e) == op_check(*op, old(self)@.break_label is Some),
            r is Err ==> final(self)@ == old(self)@,
    {
        proof {
            reveal(sp_build_op);
            reveal(op_check);
            reveal(crate::ir::op_wf);
        }
        match op {
            DslIr::ImmV(d, s) => self.push(AsmInstruction::ImmF(d.fp(), *s)),
            DslIr::ImmF(d, s) => self.push(AsmInstruction::ImmF(d.fp(), *s)),
            DslIr::ImmE(d, s) => self.push(AsmInstruction::ImmE(d.fp(), *s)),
            DslIr::AddV(d, l, r) => self.push(AsmInstruction::AddF(d.fp(), l.fp(), r.fp())),
            DslIr::AddVI(d, l, r) => self.push(AsmInstruction::AddFI(d.fp(), l.fp(), *r)),
            DslIr::AddF(d, l, r) => self.push(AsmInstruction::AddF(d.fp(), l.fp(), r.fp())),
            DslIr::AddFI(d, l, r) => self.push(AsmInstruction::AddFI(d.fp(), l.fp(), *r)),
            DslIr::AddE(d, l, r) => self.push(AsmInstruction::AddE(d.fp(), l.fp(), r.fp())),
            DslIr::AddEI(d, l, r) => self.push(AsmInstruction::AddEI(d.fp(), l.fp(), *r)),
            DslIr::AddEF(d, l, r) => self.push(AsmInstruction::AddEF(d.fp(), l.fp(), r.fp())),
            DslIr::AddEFFI(d, l, r) => self.push(AsmInstruction::AddEIF(d.fp(), l.fp(), *r)),
            DslIr::AddEFI(d, l, r) => self.push(
                AsmInstruction::AddEI(d.fp(), l.fp(), ExtImm::from_base(*r)),
            ),
            DslIr::SubV(d, l, r) => self.push(AsmInstruction::SubF(d.fp(), l.fp(), r.fp())),
            DslIr::SubVI(d, l, r) => self.push(AsmInstruction::SubFI(d.fp(), l.fp(), *r)),
            DslIr::SubVIN(d, l, r) => self.push(AsmInstruction::SubFIN(d.fp(), *l, r.fp())),
            DslIr::SubF(d, l, r) => self.push(AsmInstruction::SubF(d.fp(), l.fp(), r.fp())),
            DslIr::SubFI(d, l, r) => self.push(AsmInstruction::SubFI(d.fp(), l.fp(), *r)),
            DslIr::SubFIN(d, l, r) => self.push(AsmInstruction::SubFIN(d.fp(), *l, r.fp())),
            DslIr::NegV(d, s) => self.push(AsmInstruction::SubFIN(d.fp(), 1, s.fp())),
            DslIr::NegF(d, s) => self.push(AsmInstruction::SubFIN(d.fp(), 1, s.fp())),
            DslIr::DivF(d, l, r) => self.push(AsmInstruction::DivF(d.fp(), l.fp(), r.fp())),
            DslIr::DivFI(d, l, r) => self.push(AsmInstruction::DivFI(d.fp(), l.fp(), *r)),
            DslIr::DivFIN(d, l, r) => self.push(AsmInstruction::DivFIN(d.fp(), *l, r.fp())),
            DslIr::InvV(d, s) => self.push(AsmInstruction::DivFIN(d.fp(), 1, s.fp())),
            DslIr::InvF(d, s) => self.push(AsmInstruction::DivFIN(d.fp(), 1, s.fp())),
            DslIr::DivEF(d, l, r) => self.push(AsmInstruction::DivFE(d.fp(), l.fp(), r.fp())),
            DslIr::DivEFI(d, l, r) => self.push(
                AsmInstruction::DivEI(d.fp(), l.fp(), ExtImm::from_base(*r)),
            ),
            DslIr::DivEIN(d, l, r) => self.push(AsmInstruction::DivEIN(d.fp(), *l, r.fp())),
            DslIr::DivEFIN(d, l, r) => self.push(
                AsmInstruction::DivEIN(d.fp(), ExtImm::from_base(*l), r.fp()),
            ),
            DslIr::DivE(d, l, r) => self.push(AsmInstruction::DivE(d.fp(), l.fp(), r.fp())),
            DslIr::DivEI(d, l, r) => self.push(AsmInstruction::DivEI(d.fp(), l.fp(), *r)),
            DslIr::InvE(d, s) => self.push(AsmInstruction::DivEIN(d.fp(), ExtImm::one(), s.fp())),
            DslIr::SubEF(d, l, r) => self.push(AsmInstruction::SubFE(d.fp(), l.fp(), r.fp())),
            DslIr::SubEFI(d, l, r) => self.push(
                AsmInstruction::SubEI(d.fp(), l.fp(), ExtImm::from_base(*r)),
            ),
            DslIr::SubEIN(d, l, r) => self.push(AsmInstruction::SubEIN(d.fp(), *l, r.fp())),
            DslIr::SubE(d, l, r) => self.push(AsmInstruction::SubE(d.fp(), l.fp(), r.fp())),
            DslIr::SubEI(d, l, r) => self.push(AsmInstruction::SubEI(d.fp(), l.fp(), *r)),
            DslIr::NegE(d, s) => self.push(AsmInstruction::SubEIN(d.fp(), ExtImm::zero(), s.fp())),
            DslIr::MulV(d, l, r) => self.push(AsmInstruction::MulF(d.fp(), l.fp(), r.fp())),
            DslIr::MulVI(d, l, r) => self.push(AsmInstruction::MulFI(d.fp(), l.fp(), *r)),
            DslIr::MulF(d, l, r) => self.push(AsmInstruction::MulF(d.fp(), l.fp(), r.fp())),
            DslIr::MulFI(d, l, r) => self.push(AsmInstruction::MulFI(d.fp(), l.fp(), *r)),
            DslIr::MulE(d, l, r) => self.push(AsmInstruction::MulE(d.fp(), l.fp(), r.fp())),
            DslIr::MulEI(d, l, r) => self.push(AsmInstruction::MulEI(d.fp(), l.fp(), *r)),
            DslIr::MulEF(d, l, r) => self.push(AsmInstruction::MulFE(d.fp(), l.fp(), r.fp())),
            DslIr::MulEFI(d, l, r) => self.push(
                AsmInstruction::MulEI(d.fp(), l.fp(), ExtImm::from_base(*r)),
            ),
            DslIr::Break => {
                match self.break_label {
                    Some(label) => {
                        let current_block = self.block_label();
                        if !contains_label(&self.contains_break, current_block) {
                            self.contains_break.push(current_block);
                            proof {
                                assert(self@ =~~= sp_mark_break(old(self)@, current_block));
                            }
                        }
                        self.push(AsmInstruction::Break(label));
                    },
                    None => {
                        return Err(CompileError::BreakOutsideLoop);
                    },
                }
            },
            DslIr::AssertEqV(l, r) => self.emit_assert(
                l.fp(),
                ValueOrConst::Val(r.fp()),
                false,
            ),
            DslIr::AssertEqVI(l, r) => self.emit_assert(l.fp(), ValueOrConst::Const(*r), false),
            DslIr::AssertNeV(l, r) => self.emit_assert(l.fp(), ValueOrConst::Val(r.fp()), true),
            DslIr::AssertNeVI(l, r) => self.emit_assert(l.fp(), ValueOrConst::Const(*r), true),
            DslIr::AssertEqF(l, r) => self.emit_assert(
                l.fp(),
                ValueOrConst::Val(r.fp()),
                false,
            ),
            DslIr::AssertEqFI(l, r) => self.emit_assert(l.fp(), ValueOrConst::Const(*r), false),
            DslIr::AssertNeF(l, r) => self.emit_assert(l.fp(), ValueOrConst::Val(r.fp()), true),
            DslIr::AssertNeFI(l, r) => self.emit_assert(l.fp(), ValueOrConst::Const(*r), true),
            DslIr::AssertEqE(l, r) => self.emit_assert(
                l.fp(),
                ValueOrConst::ExtVal(r.fp()),
                false,
            ),
            DslIr::AssertEqEI(l, r) => self.emit_assert(l.fp(), ValueOrConst::ExtConst(*r), false),
            DslIr::AssertNeE(l, r) => self.emit_assert(l.fp(), ValueOrConst::ExtVal(r.fp()), true),
            DslIr::AssertNeEI(l, r) => self.emit_assert(l.fp(), ValueOrConst::ExtConst(*r), true),
            DslIr::Alloc(p, len, size) => self.heap_alloc(*p, *len, *size),
            DslIr::LoadV(d, p, idx) => {
                match idx.fp() {
                    IndexTriple::Const(index, offset, size) => self.push(
                        AsmInstruction::LoadFI(d.fp(), p.fp(), index, offset, size),
                    ),
                    IndexTriple::Var(index, offset, size) => self.push(
                        AsmInstruction::LoadF(d.fp(), p.fp(), index, offset, size),
                    ),
                }
            },
            DslIr::LoadF(d, p, idx) => {
                match idx.fp() {
                    IndexTriple::Const(index, offset, size) => self.push(
                        AsmInstruction::LoadFI(d.fp(), p.fp(), index, offset, size),
                    ),
                    IndexTriple::Var(index, offset, size) => self.push(
                        AsmInstruction::LoadF(d.fp(), p.fp(), index, offset, size),
                    ),
                }
            },
            DslIr::LoadE(d, p, idx) => {
                match idx.fp() {
                    IndexTriple::Const(index, offset, size) => self.push(
                        AsmInstruction::LoadEI(d.fp(), p.fp(), index, offset, size),
                    ),
                    IndexTriple::Var(index, offset, size) => self.push(
                        AsmInstruction::LoadE(d.fp(), p.fp(), index, offset, size),
                    ),
                }
            },
            DslIr::StoreV(p, d, idx) => {
                match idx.fp() {
                    IndexTriple::Const(index, offset, size) => self.push(
                        AsmInstruction::StoreFI(p.fp(), d.fp(), index, offset, size),
                    ),
                    IndexTriple::Var(index, offset, size) => self.push(
                        AsmInstruction::StoreF(p.fp(), d.fp(), index, offset, size),
                    ),
                }
            },
            DslIr::StoreF(p, d, idx) => {
                match idx.fp() {
                    IndexTriple::Const(index, offset, size) => self.push(
                        AsmInstruction::StoreFI(p.fp(), d.fp(), index, offset, size),
                    ),
                    IndexTriple::Var(index, offset, size) => self.push(
                        AsmInstruction::StoreF(p.fp(), d.fp(), index, offset, size),
                    ),
                }
            },
            DslIr::StoreE(p, d, idx) => {
                match idx.fp() {
                    IndexTriple::Const(index, offset, size) => self.push(
                        AsmInstruction::StoreEI(p.fp(), d.fp(), index, offset, size),
                    ),
                    IndexTriple::Var(index, offset, size) => self.push(
                        AsmInstruction::StoreE(p.fp(), d.fp(), index, offset, size),
                    ),
                }
            },
            DslIr::HintBitsU(d, s) => {
                match (d, s) {
                    (Array::Dyn(dp, _), Usize::Var(sv)) => self.push(
                        AsmInstruction::HintBits(dp.fp(), sv.fp()),
                    ),
                    _ => {
                        return Err(CompileError::InvalidOperand);
                    },
                }
            },
            DslIr::HintBitsF(d, s) => {
                match d {
                    Array::Dyn(dp, _) => self.push(AsmInstruction::HintBits(dp.fp(), s.fp())),
                    _ => {
                        return Err(CompileError::InvalidOperand);
                    },
                }
            },
            DslIr::HintBitsV(d, s) => {
                match d {
                    Array::Dyn(dp, _) => self.push(AsmInstruction::HintBits(dp.fp(), s.fp())),
                    _ => {
                        return Err(CompileError::InvalidOperand);
                    },
                }
            },
            DslIr::Num2BitsF(_, _) => {
                return Err(CompileError::Num2Bits);
            },
            DslIr::Num2BitsV(_, _) => {
                return Err(CompileError::Num2Bits);
            },
            DslIr::Poseidon2PermuteBabyBear(d, s) => {
                match (d, s) {
                    (Array::Dyn(dp, _), Array::Dyn(sp, _)) => self.push(
                        AsmInstruction::Poseidon2Permute(dp.fp(), sp.fp()),
                    ),
                    _ => {
                        return Err(CompileError::InvalidOperand);
                    },
                }
            },
            DslIr::ReverseBitsLen(_, _, _) => {
                return Err(CompileError::ReverseBitsLen);
            },
            DslIr::TwoAdicGenerator(_, _) => {
                return Err(CompileError::TwoAdicGenerator);
            },
            DslIr::ExpUsizeV(_, _, _) => {
                return Err(CompileError::ExpUsize);
            },
            DslIr::ExpUsizeF(_, _, _) => {
                return Err(CompileError::ExpUsize);
            },
            DslIr::Error => self.push(AsmInstruction::Trap),
            DslIr::PrintF(d) => self.push(AsmInstruction::PrintF(d.fp())),
            DslIr::PrintV(d) => self.push(AsmInstruction::PrintV(d.fp())),
            DslIr::PrintE(d) => self.push(AsmInstruction::PrintE(d.fp())),
            DslIr::Ext2Felt(d, s) => {
                match d {
                    Array::Dyn(dp, _) => self.push(AsmInstruction::Ext2Felt(dp.fp(), s.fp())),
                    _ => {
                        return Err(CompileError::InvalidOperand);
                    },
                }
            },
            DslIr::HintLen(d) => self.push(AsmInstruction::HintLen(d.fp())),
            DslIr::HintVars(d) => {
                match d {
                    Array::Dyn(dp, _) => self.push(AsmInstruction::Hint(dp.fp())),
                    _ => {
                        return Err(CompileError::InvalidOperand);
                    },
                }
            },
            DslIr::HintFelts(d) => {
                match d {
                    Array::Dyn(dp, _) => self.push(AsmInstruction::Hint(dp.fp())),
                    _ => {
                        return Err(CompileError::InvalidOperand);
                    },
                }
            },
            DslIr::HintExts(d) => {
                match d {
                    Array::Dyn(dp, _) => self.push(AsmInstruction::Hint(dp.fp())),
                    _ => {
                        return Err(CompileError::InvalidOperand);
                    },
                }
            },
            DslIr::FriFold(m, a) => {
                match a {
                    Array::Dyn(ap, _) => self.push(AsmInstruction::FriFold(m.fp(), ap.fp())),
                    _ => {
                        return Err(CompileError::InvalidOperand);
                    },
                }
            },
            DslIr::Poseidon2CompressBabyBear(rr, ll, r2) => {
                match (rr, ll, r2) {
                    (Array::Dyn(rp, _), Array::Dyn(lp, _), Array::Dyn(r2p, _)) => self.push(
                        AsmInstruction::Poseidon2Compress(rp.fp(), lp.fp(), r2p.fp()),
                    ),
                    _ => {
                        return Err(CompileError::InvalidOperand);
                    },
                }
            },
            DslIr::IfEq(_, _, _, _) => {
                return Err(CompileError::InvalidOperand);
            },
            DslIr::IfNe(_, _, _, _) => {
                return Err(CompileError::InvalidOperand);
            },
            DslIr::IfEqI(_, _, _, _) => {
                return Err(CompileError::InvalidOperand);
            },
            DslIr::IfNeI(_, _, _, _) => {
                return Err(CompileError::InvalidOperand);
            },
            DslIr::For(_, _, _, _, _) => {
                return Err(CompileError::InvalidOperand);
            },
        }
        Ok(())
    }

    /// Appends an instruction to the current block.
    fn push(&mut self, instruction: AsmInstruction)
        requires
            old(self)@.blocks.len() >= 1,
        ensures
            final(self)@ == sp_push(old(self)@, instruction),
    {
        let n = self.basic_blocks.len();
        self.basic_blocks[n - 1].push(instruction);
        proof {
            assert(final(self)@.blocks =~= sp_push(old(self)@, instruction).blocks);
            assert(final(self)@ =~= sp_push(old(self)@, instruction));
        }
    }

    /// Compiles one operation: structured control through the matching
    /// sub-compiler, anything else as straight-line instructions.
    fn build_op(&mut self, op: &DslIr) -> (r: Result<(), CompileError>)
        requires
            old(self)@.wf(),
            op_wf(*op),
            old(self)@.blocks.len() + 3 * ir_size(*op) <= FIELD_MODULUS as int,
            old(self)@.break_label_map.len() + ir_size(*op) <= FIELD_MODULUS as int,
        ensures
            r is Ok <==> op_check(*op, old(self)@.break_label is Some) is None,
            r is Ok ==> final(self)@ == sp_build_op(old(self)@, *op),
            r matches Err(e) ==> Some(e) == op_check(*op, old(self)@.break_label is Some),
            r is Err ==> final(self)@.wf() && final(self)@.blocks.len() >= old(
                self,
            )@.blocks.len() && final(self)@.break_label_map.len() >= old(
                self,
            )@.break_label_map.len() && final(self)@.function_labels == old(
                self,
            )@.function_labels,
        decreases ir_size(*op), 1nat,
    {
        proof {
            reveal(sp_build_op);
            reveal(op_check);
            reveal(crate::ir::op_wf);
        }
        match op {
            DslIr::IfEq(lhs, rhs, then_block, else_block) => {
                let if_compiler = IfCompiler {
                    lhs: lhs.fp(),
                    rhs: ValueOrConst::Val(rhs.fp()),
                    is_eq: true,
                };
                if else_block.len() == 0 {
                    if_compiler.then_branch(self, then_block)
                } else {
                    if_compiler.then_or_else(self, then_block, else_block)
                }
            },
            DslIr::IfNe(lhs, rhs, then_block, else_block) => {
                let if_compiler = IfCompiler {
                    lhs: lhs.fp(),
                    rhs: ValueOrConst::Val(rhs.fp()),
                    is_eq: false,
                };
                if else_block.len() == 0 {
                    if_compiler.then_branch(self, then_block)
                } else {
                    if_compiler.then_or_else(self, then_block, else_block)
                }
            },
            DslIr::IfEqI(lhs, rhs, then_block, else_block) => {
                let if_compiler = IfCompiler {
                    lhs: lhs.fp(),
                    rhs: ValueOrConst::Const(*rhs),
                    is_eq: true,
                };
                if else_block.len() == 0 {
                    if_compiler.then_branch(self, then_block)
                } else {
                    if_compiler.then_or_else(self, then_block, else_block)
                }
            },
            DslIr::IfNeI(lhs, rhs, then_block, else_block) => {
                let if_compiler = IfCompiler {
                    lhs: lhs.fp(),
                    rhs: ValueOrConst::Const(*rhs),
                    is_eq: false,
                };
                if else_block.len() == 0 {
                    if_compiler.then_branch(self, then_block)
                } else {
                    if_compiler.then_or_else(self, then_block, else_block)
                }
            },
            DslIr::For(start, end, step_size, loop_var, block) => {
                let for_compiler = ForCompiler {
                    start: *start,
                    end: *end,
                    step_size: *step_size,
                    loop_var: *loop_var,
                };
                for_compiler.for_each(self, block)
            },
            _ => self.build_op_flat(op),
        }
    }

    /// Freezes the compiler into assembly code: the block list together
    /// with the function-name table, inverted into label-to-name pairs.
    pub fn code(self) -> (r: AssemblyCode)
        ensures
            r@.blocks == self@.blocks,
            r@.labels == self@.function_labels.map_values(|p: (Seq<char>, u32)| (p.1, p.0)),
    {
        let ghost gv = self@;
        let AsmCompiler {
            basic_blocks,
            break_label: _,
            break_label_map: _,
            contains_break: _,
            function_labels,
        } = self;
        let n = function_labels.len();
        let mut labels: Vec<(u32, String)> = Vec::new();
        let mut i: usize = 0;
        while i < n
            invariant
                n == function_labels@.len(),
                i <= n,
                labels@.len() == i,
                forall|j: int|
                    0 <= j < i ==> (#[trigger] labels@[j]).0 == function_labels@[j].1
                        && labels@[j].1@ == function_labels@[j].0@,
            decreases n - i,
        {
            let name = function_labels[i].0.clone();
            let ghost name_v = name@;
            let lbl = function_labels[i].1;
            labels.push((lbl, name));
            proof {
                assert(labels@[i as int].1@ == name_v);
            }
            i += 1;
        }
        let r = AssemblyCode::new(basic_blocks, labels);
        proof {
            assert(r@.blocks =~= gv.blocks);
            assert(r@.labels =~= gv.function_labels.map_values(
                |p: (Seq<char>, u32)| (p.1, p.0),
            ));
        }
        r
    }

    /// Compiles the accumulated code into the flat machine program: freezes
    /// the block list and resolves every block label to its flat address.
    pub fn compile(self) -> (r: Result<MachineCode, AssembleError>)
        requires
            flat_len(self@.blocks) <= FIELD_MODULUS as int,
        ensures
            ({
                let labels = self@.function_labels.map_values(
                    |p: (Seq<char>, u32)| (p.1, p.0),
                );
                &&& (r is Ok <==> code_issue(self@.blocks, labels) is None)
                &&& (r matches Ok(mc) ==> mc.instructions@ == flat_resolved(
                    self@.blocks,
                    self@.blocks.len() as int,
                ) && mc.labels@.map_values(|p: (String, u32)| (p.0@, p.1)) == resolved_labels(
                    labels,
                    self@.blocks,
                ))
                &&& (r matches Err(e) ==> Some(e) == code_issue(self@.blocks, labels))
            }),
    {
        let code = self.code();
        code.machine_code()
    }

    /// Builds the operations into assembly instructions.
    ///
    /// When compilation starts on the very first block, the heap pointer is
    /// first initialized to the cell past the stack. Returns the refusal for
    /// the first unsupported operation; otherwise the emitted program is
    /// exactly the one [`sp_build`] describes.
    #[verifier::rlimit(100)]
    #[verifier::spinoff_prover]
    pub fn build(&mut self, operations: &Vec<DslIr>) -> (r: Result<(), CompileError>)
        requires
            old(self)@.wf(),
            seq_wf(operations@),
            old(self)@.blocks.len() + 3 * seq_ir_size(operations@) <= FIELD_MODULUS as int,
            old(self)@.break_label_map.len() + seq_ir_size(operations@) <= FIELD_MODULUS as int,
        ensures
            r is Ok <==> seq_check(operations@, old(self)@.break_label is Some) is None,
            r is Ok ==> final(self)@ == sp_build(old(self)@, operations@),
            r matches Err(e) ==> Some(e) == seq_check(
                operations@,
                old(self)@.break_label is Some,
            ),
            r is Err ==> final(self)@.wf() && final(self)@.blocks.len() >= old(
                self,
            )@.blocks.len() && final(self)@.break_label_map.len() >= old(
                self,
            )@.break_label_map.len() && final(self)@.function_labels == old(
                self,
            )@.function_labels,
        decreases seq_ir_size(operations@), 2nat,
    {
        let ghost v_pre = self@;
        let ghost hl0 = v_pre.break_label is Some;
        let label0 = self.block_label();
        if label0 == 0 {
            self.push(AsmInstruction::ImmF(HEAP_PTR, HEAP_START));
        }
        let ghost v0 = self@;
        proof {
            assert(v0 == sp_heap_init(v_pre));
            assert(v0.wf());
        }
        let n = operations.len();
        proof {
            assert(operations@.skip(0) =~= operations@);
        }
        let mut i: usize = 0;
        while i < n
            invariant
                self@.wf(),
                n == operations.len(),
                i <= n,
                seq_wf(operations@),
                hl0 == (old(self)@.break_label is Some),
                v0 == sp_heap_init(old(self)@),
                self@.blocks.len() >= old(self)@.blocks.len(),
                self@.break_label_map.len() >= old(self)@.break_label_map.len(),
                self@.function_labels == old(self)@.function_labels,
                sp_build_ops(self@, operations@.skip(i as int)) == sp_build_ops(v0, operations@),
                seq_check(operations@.skip(i as int), self@.break_label is Some) == seq_check(
                    operations@,
                    hl0,
                ),
                self@.blocks.len() + 3 * seq_ir_size(operations@.skip(i as int))
                    <= FIELD_MODULUS as int,
                self@.break_label_map.len() + seq_ir_size(operations@.skip(i as int))
                    <= FIELD_MODULUS as int,
            decreases n - i,
        {
            proof {
                crate::ir::lemma_seq_ir_size_skip(operations@, i as int);
                crate::ir::lemma_ir_size_pos(operations@[i as int]);
                crate::ir::lemma_seq_ir_size_elem(operations@, i as int);
                assert(operations@.skip(i as int)[0] == operations@[i as int]);
                assert(operations@.skip(i as int).drop_first() =~= operations@.skip(i as int + 1));
            }
            let ghost v_cur = self@;
            let ghost hl_cur = self@.break_label is Some;
            let ghost op_g = operations@[i as int];
            let op = &operations[i];
            let res = self.build_op(op);
            match res {
                Err(e) => {
                    proof {
                        lemma_seq_check_step(operations@, i as int, hl_cur);
                        assert(seq_check(operations@, hl0) == Some(e));
                    }
                    return Err(e);
                },
                Ok(()) => {},
            }
            proof {
                assert(self@ == sp_build_op(v_cur, op_g));
                assert(op_check(op_g, hl_cur) is None);
                lemma_frame_build_op(v_cur, op_g);
                lemma_build_ops_step(v_cur, operations@, i as int);
                lemma_seq_check_step(operations@, i as int, hl_cur);
            }
            i += 1;
        }
        proof {
            assert(operations@.skip(n as int) =~= Seq::<DslIr>::empty());
        }
        Ok(())
    }
}

/// The conditional sub-compiler: the condition whose branch guards a
/// structured `then` / `else` construct.
pub struct IfCompiler {
    pub lhs: i32,
    pub rhs: ValueOrConst,
    pub is_eq: bool,
}

impl IfCompiler {
    /// Compiles a single-branch conditional: the then-body in a fresh block
    /// entered by fallthrough, then a fresh after-block, and finally the
    /// branch, patched into the original block, that skips the body when the
    /// condition fails.
    pub fn then_branch(&self, compiler: &mut AsmCompiler, then_block: &Vec<DslIr>) -> (r: Result<
        (),
        CompileError,
    >)
        requires
            old(compiler)@.wf(),
            seq_wf(then_block@),
            old(compiler)@.blocks.len() + 2 + 3 * seq_ir_size(then_block@)
                <= FIELD_MODULUS as int,
            old(compiler)@.break_label_map.len() + seq_ir_size(then_block@)
                <= FIELD_MODULUS as int,
        ensures
            r is Ok <==> seq_check(then_block@, old(compiler)@.break_label is Some) is None,
            r is Ok ==> final(compiler)@ == sp_then(
                old(compiler)@,
                self.lhs,
                self.rhs,
                self.is_eq,
                then_block@,
            ),
            r matches Err(e) ==> Some(e) == seq_check(
                then_block@,
                old(compiler)@.break_label is Some,
            ),
            r is Err ==> final(compiler)@.wf() && final(compiler)@.blocks.len() >= old(
                compiler,
            )@.blocks.len() && final(compiler)@.break_label_map.len() >= old(
                compiler,
            )@.break_label_map.len() && final(compiler)@.function_labels == old(
                compiler,
            )@.function_labels,
        decreases seq_ir_size(then_block@), 3nat,
    {
        let if_branching_block = compiler.block_label();
        compiler.basic_block();
        proof {
            assert(compiler@.wf());
        }
        let res = compiler.build(then_block);
        match res {
            Err(e) => {
                return Err(e);
            },
            Ok(()) => {},
        }
        proof {
            lemma_frame_build(sp_new_block(old(compiler)@), then_block@);
        }
        compiler.basic_block();
        proof {
            assert(compiler@.wf());
        }
        let after_if_block = compiler.block_label();
        let instr = Self::branch(self.lhs, self.rhs, self.is_eq, after_if_block);
        compiler.push_to_block(if_branching_block, instr);
        proof {
            assert(final(compiler)@ == sp_then(
                old(compiler)@,
                self.lhs,
                self.rhs,
                self.is_eq,
                then_block@,
            ));
        }
        Ok(())
    }

    /// Compiles a two-branch conditional: the then-body in a fresh block
    /// entered by fallthrough, the else-body in the block the guarding
    /// branch jumps to when the condition fails, and a fresh after-block the
    /// then-path jumps to so both paths converge.
    #[verifier::rlimit(100)]
    #[verifier::spinoff_prover]
    pub fn then_or_else(
        &self,
        compiler: &mut AsmCompiler,
        then_block: &Vec<DslIr>,
        else_block: &Vec<DslIr>,
    ) -> (r: Result<(), CompileError>)
        requires
            old(compiler)@.wf(),
            seq_wf(then_block@),
            seq_wf(else_block@),
            old(compiler)@.blocks.len() + 3 + 3 * (seq_ir_size(then_block@) + seq_ir_size(
                else_block@,
            )) <= FIELD_MODULUS as int,
            old(compiler)@.break_label_map.len() + seq_ir_size(then_block@) + seq_ir_size(
                else_block@,
            ) <= FIELD_MODULUS as int,
        ensures
            r is Ok <==> (seq_check(then_block@, old(compiler)@.break_label is Some) is None
                && seq_check(else_block@, old(compiler)@.break_label is Some) is None),
            r is Ok ==> final(compiler)@ == sp_then_or_else(
                old(compiler)@,
                self.lhs,
                self.rhs,
                self.is_eq,
                then_block@,
                else_block@,
            ),
            r matches Err(e) ==> Some(e) == (match seq_check(
                then_block@,
                old(compiler)@.break_label is Some,
            ) {
                Some(err) => Some(err),
                None => seq_check(else_block@, old(compiler)@.break_label is Some),
            }),
            r is Err ==> final(compiler)@.wf() && final(compiler)@.blocks.len() >= old(
                compiler,
            )@.blocks.len() && final(compiler)@.break_label_map.len() >= old(
                compiler,
            )@.break_label_map.len() && final(compiler)@.function_labels == old(
                compiler,
            )@.function_labels,
        decreases seq_ir_size(then_block@) + seq_ir_size(else_block@), 3nat,
    {
        let if_branching_block = compiler.block_label();
        compiler.basic_block();
        proof {
            assert(compiler@.wf());
        }
        let res = compiler.build(then_block);
        match res {
            Err(e) => {
                return Err(e);
            },
            Ok(()) => {},
        }
        proof {
            lemma_frame_build(sp_new_block(old(compiler)@), then_block@);
        }
        let last_if_block = compiler.block_label();
        compiler.basic_block();
        let else_label = compiler.block_label();
        proof {
            assert(compiler@.wf());
        }
        let ghost v3 = compiler@;
        let res2 = compiler.build(else_block);
        match res2 {
            Err(e) => {
                return Err(e);
            },
            Ok(()) => {},
        }
        proof {
            lemma_frame_build(v3, else_block@);
        }
        let instr = Self::branch(self.lhs, self.rhs, self.is_eq, else_label);
        compiler.push_to_block(if_branching_block, instr);
        compiler.basic_block();
        proof {
            assert(compiler@.wf());
        }
        let main_flow_block = compiler.block_label();
        let instr = AsmInstruction::j(main_flow_block);
        compiler.push_to_block(last_if_block, instr);
        proof {
            assert(final(compiler)@ == sp_then_or_else(
                old(compiler)@,
                self.lhs,
                self.rhs,
                self.is_eq,
                then_block@,
                else_block@,
            ));
        }
        Ok(())
    }

    /// Selects the physical branch opcode for a comparison: a direct lookup
    /// over (operand form, equality sense), negated so the branch is taken
    /// when the structured condition fails.
    fn branch(lhs: i32, rhs: ValueOrConst, is_eq: bool, block: u32) -> (r: AsmInstruction)
        ensures
            r == sp_branch(lhs, rhs, is_eq, block),
    {
        match (rhs, is_eq) {
            (ValueOrConst::Const(r), true) => AsmInstruction::BneI(block, lhs, r),
            (ValueOrConst::Const(r), false) => AsmInstruction::BeqI(block, lhs, r),
            (ValueOrConst::ExtConst(r), true) => AsmInstruction::BneEI(block, lhs, r),
            (ValueOrConst::ExtConst(r), false) => AsmInstruction::BeqEI(block, lhs, r),
            (ValueOrConst::Val(r), true) => AsmInstruction::Bne(block, lhs, r),
            (ValueOrConst::Val(r), false) => AsmInstruction::Beq(block, lhs, r),
            (ValueOrConst::ExtVal(r), true) => AsmInstruction::BneE(block, lhs, r),
            (ValueOrConst::ExtVal(r), false) => AsmInstruction::BeqE(block, lhs, r),
        }
    }
}

/// Rewriting a block twice for one label is the same as rewriting it once:
/// the rewrite never produces an abstract break.
proof fn lemma_rewrite_block_idem(b: Seq<AsmInstruction>, label: u32, target: u32)
    ensures
        sp_rewrite_block(sp_rewrite_block(b, label, target), label, target) == sp_rewrite_block(
            b,
            label,
            target,
        ),
{
    let once = sp_rewrite_block(b, label, target);
    let twice = sp_rewrite_block(once, label, target);
    assert forall|k: int| 0 <= k < b.len() implies twice[k] == once[k] by {
        assert(once[k] == sp_rewrite_instr(b[k], label, target));
    }
    assert(twice =~= once);
}

/// Whether one of the first `bi` recorded break locations is block `b`.
spec fn marked_before(cb: Seq<u32>, bi: int, b: int) -> bool {
    exists|j: int| 0 <= j < bi && cb[j] as int == b
}

/// After `bi` rewrite steps, the blocks recorded among the first `bi` break
/// locations are rewritten and all others still hold their original
/// instructions.
spec fn rw_progress(
    cur: Seq<Seq<AsmInstruction>>,
    orig: CompilerView,
    bi: int,
    label: u32,
    target: u32,
) -> bool {
    forall|b: int|
        0 <= b < orig.blocks.len() ==> #[trigger] cur[b] == (
        if marked_before(orig.contains_break, bi, b) {
            sp_rewrite_block(orig.blocks[b], label, target)
        } else {
            orig.blocks[b]
        })
}

/// Rewrites, in place, every abstract break for this label in one block into
/// a jump to the target.
fn rewrite_block(b: &mut BasicBlock, label: u32, target: u32)
    ensures
        final(b)@ == sp_rewrite_block(old(b)@, label, target),
{
    let n = b.0.len();
    let mut k: usize = 0;
    while k < n
        invariant
            n == b.0.len(),
            k <= n,
            forall|j: int| 0 <= j < k ==> b@[j] == sp_rewrite_instr(old(b)@[j], label, target),
            forall|j: int| k <= j < n ==> b@[j] == old(b)@[j],
        decreases n - k,
    {
        let ins = b.0[k];
        if let AsmInstruction::Break(l) = ins {
            if l == label {
                b.0[k] = AsmInstruction::Jump(target);
            }
        }
        proof {
            assert(b@[k as int] == sp_rewrite_instr(old(b)@[k as int], label, target));
        }
        k += 1;
    }
    proof {
        assert(final(b)@ =~= sp_rewrite_block(old(b)@, label, target));
    }
}

/// A builder for a for loop.
///
/// Starting with end below start leads to undefined behavior: the bottom
/// test only compares for inequality, as the design prescribes.
pub struct ForCompiler {
    pub start: Usize,
    pub end: Usize,
    pub step_size: u32,
    pub loop_var: Var,
}

impl ForCompiler {
    /// Compiles a loop around the given body. The loop variable is set up in
    /// the current block, which then jumps to the bottom-tested condition
    /// block; the body block loops on itself through the (possibly fused)
    /// increment-and-branch; and every abstract break the body emitted for
    /// this loop is rewritten to a jump to the fresh after-loop block.
    #[verifier::rlimit(100)]
    #[verifier::spinoff_prover]
    pub(crate) fn for_each(&self, compiler: &mut AsmCompiler, block: &Vec<DslIr>) -> (r: Result<
        (),
        CompileError,
    >)
        requires
            old(compiler)@.wf(),
            seq_wf(block@),
            self.start.wf(),
            self.end.wf(),
            is_felt(self.step_size),
            crate::ir::var_wf(self.loop_var),
            old(compiler)@.blocks.len() + 3 + 3 * seq_ir_size(block@) <= FIELD_MODULUS as int,
            old(compiler)@.break_label_map.len() + 1 + seq_ir_size(block@)
                <= FIELD_MODULUS as int,
        ensures
            r is Ok <==> seq_check(block@, true) is None,
            r is Ok ==> final(compiler)@ == sp_for(
                old(compiler)@,
                self.start,
                self.end,
                self.step_size,
                self.loop_var,
                block@,
            ),
            r matches Err(e) ==> Some(e) == seq_check(block@, true),
            r is Err ==> final(compiler)@.wf() && final(compiler)@.blocks.len() >= old(
                compiler,
            )@.blocks.len() && final(compiler)@.break_label_map.len() >= old(
                compiler,
            )@.break_label_map.len() && final(compiler)@.function_labels == old(
                compiler,
            )@.function_labels,
        decreases seq_ir_size(block@), 3nat,
    {
        let saved_break_label = compiler.break_label;
        self.set_loop_var(compiler);
        proof {
            assert(compiler@.wf());
        }
        let loop_call_label = compiler.block_label();
        let break_label = compiler.new_break_label();
        compiler.basic_block();
        let ghost v3 = compiler@;
        proof {
            assert(compiler@.wf());
        }
        let loop_label = compiler.block_label();
        let res = compiler.build(block);
        match res {
            Err(e) => {
                return Err(e);
            },
            Ok(()) => {},
        }
        proof {
            lemma_frame_build(v3, block@);
        }
        if self.step_size == 1 {
            self.jump_to_loop_body_inc(compiler, loop_label);
        } else {
            compiler.push(
                AsmInstruction::AddFI(self.loop_var.fp(), self.loop_var.fp(), self.step_size),
            );
        }
        compiler.basic_block();
        self.jump_to_loop_body(compiler, loop_label);
        proof {
            assert(compiler@.wf());
        }
        let label = compiler.block_label();
        let instr = AsmInstruction::j(label);
        compiler.push_to_block(loop_call_label, instr);
        compiler.basic_block();
        proof {
            assert(compiler@.wf());
        }
        let after_label = compiler.block_label();
        let bidx = break_label as usize;
        compiler.break_label_map[bidx] = Some(after_label);
        compiler.break_label = saved_break_label;
        let ghost v10 = compiler@;
        proof {
            assert(v10.wf());
        }
        let n_cb = compiler.contains_break.len();
        let mut bi: usize = 0;
        while bi < n_cb
            invariant
                n_cb == compiler.contains_break@.len(),
                bi <= n_cb,
                v10.wf(),
                compiler@.contains_break == v10.contains_break,
                compiler@.break_label == v10.break_label,
                compiler@.break_label_map == v10.break_label_map,
                compiler@.function_labels == v10.function_labels,
                compiler@.blocks.len() == v10.blocks.len(),
                rw_progress(compiler@.blocks, v10, bi as int, break_label, after_label),
            decreases n_cb - bi,
        {
            let ghost v_it = compiler@;
            let blkidx = compiler.contains_break[bi] as usize;
            let ghost b_pre = compiler@.blocks[blkidx as int];
            rewrite_block(&mut compiler.basic_blocks[blkidx], break_label, after_label);
            proof {
                lemma_rewrite_block_idem(v10.blocks[blkidx as int], break_label, after_label);
                assert(compiler@.blocks.len() == v_it.blocks.len());
                assert forall|b: int|
                    0 <= b < v_it.blocks.len() && b != blkidx as int implies compiler@.blocks[b]
                    == v_it.blocks[b] by {}
                assert(compiler@.blocks[blkidx as int] == sp_rewrite_block(
                    b_pre,
                    break_label,
                    after_label,
                ));
                assert(rw_progress(v_it.blocks, v10, bi as int, break_label, after_label));
                assert forall|b: int|
                    0 <= b < v10.blocks.len() implies #[trigger] compiler@.blocks[b] == (
                    if marked_before(v10.contains_break, bi as int + 1, b) {
                        sp_rewrite_block(v10.blocks[b], break_label, after_label)
                    } else {
                        v10.blocks[b]
                    }) by {
                    assert(v_it.blocks[b] == (
                        if marked_before(v10.contains_break, bi as int, b) {
                            sp_rewrite_block(v10.blocks[b], break_label, after_label)
                        } else {
                            v10.blocks[b]
                        }));
                    if b == blkidx as int {
                        assert(marked_before(v10.contains_break, bi as int + 1, b)) by {
                            assert(v10.contains_break[bi as int] as int == b);
                        }
                    } else {
                        if marked_before(v10.contains_break, bi as int + 1, b) {
                            let j = choose|j: int|
                                0 <= j < bi as int + 1 && v10.contains_break[j] as int == b;
                            assert(j != bi as int);
                            assert(marked_before(v10.contains_break, bi as int, b));
                        }
                        if marked_before(v10.contains_break, bi as int, b) {
                            let j = choose|j: int|
                                0 <= j < bi as int && v10.contains_break[j] as int == b;
                            assert(0 <= j < bi as int + 1 && v10.contains_break[j] as int == b);
                            assert(marked_before(v10.contains_break, bi as int + 1, b));
                        }
                    }
                }
                assert(rw_progress(
                    compiler@.blocks,
                    v10,
                    bi as int + 1,
                    break_label,
                    after_label,
                ));
            }
            bi += 1;
        }
        proof {
            let rr = sp_resolve_breaks(v10, break_label, after_label);
            assert forall|b: int| 0 <= b < v10.blocks.len() implies compiler@.blocks[b]
                == rr.blocks[b] by {
                assert(compiler@.blocks[b] == (
                    if marked_before(v10.contains_break, n_cb as int, b) {
                        sp_rewrite_block(v10.blocks[b], break_label, after_label)
                    } else {
                        v10.blocks[b]
                    }));
                assert(marked_before(v10.contains_break, n_cb as int, b) == v10.contains_break
                    .contains(b as u32));
            }
            assert(compiler@.blocks =~= rr.blocks);
            assert(compiler@ =~~= rr);
            assert(final(compiler)@ == sp_for(
                old(compiler)@,
                self.start,
                self.end,
                self.step_size,
                self.loop_var,
                block@,
            ));
        }
        Ok(())
    }

    /// Initializes the loop variable to the start of the range: an immediate
    /// load for a constant start, a register copy otherwise.
    fn set_loop_var(&self, compiler: &mut AsmCompiler)
        requires
            old(compiler)@.blocks.len() >= 1,
            self.start.wf(),
            crate::ir::var_wf(self.loop_var),
        ensures
            final(compiler)@ == sp_set_loop_var(old(compiler)@, self.start, self.loop_var),
    {
        match self.start {
            Usize::Const(start) => {
                compiler.push(AsmInstruction::ImmF(self.loop_var.fp(), start as u32));
            },
            Usize::Var(var) => {
                compiler.push(AsmInstruction::AddFI(self.loop_var.fp(), var.fp(), 0));
            },
        }
    }

    /// Emits the bottom test: jump back to the loop body while the loop
    /// variable differs from the end bound.
    fn jump_to_loop_body(&self, compiler: &mut AsmCompiler, loop_label: u32)
        requires
            old(compiler)@.blocks.len() >= 1,
            self.end.wf(),
            crate::ir::var_wf(self.loop_var),
        ensures
            final(compiler)@ == sp_jump_to_loop_body(
                old(compiler)@,
                self.end,
                self.loop_var,
                loop_label,
            ),
    {
        match self.end {
            Usize::Const(end) => {
                compiler.push(AsmInstruction::BneI(loop_label, self.loop_var.fp(), end as u32));
            },
            Usize::Var(end) => {
                compiler.push(AsmInstruction::Bne(loop_label, self.loop_var.fp(), end.fp()));
            },
        }
    }

    /// Emits the fused unit-step terminal: increment the loop variable, then
    /// jump back to the loop body while it differs from the end bound.
    fn jump_to_loop_body_inc(&self, compiler: &mut AsmCompiler, loop_label: u32)
        requires
            old(compiler)@.blocks.len() >= 1,
            self.end.wf(),
            crate::ir::var_wf(self.loop_var),
        ensures
            final(compiler)@ == sp_jump_to_loop_body_inc(
                old(compiler)@,
                self.end,
                self.loop_var,
                loop_label,
            ),
    {
        match self.end {
            Usize::Const(end) => {
                compiler.push(
                    AsmInstruction::BneIInc(loop_label, self.loop_var.fp(), end as u32),
                );
            },
            Usize::Var(end) => {
                compiler.push(AsmInstruction::BneInc(loop_label, self.loop_var.fp(), end.fp()));
            },
        }
    }
}

} // verus!
