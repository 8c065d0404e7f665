//! A ghost execution model of the block-structured programs the compiler
//! emits, and the control-flow laws proved against it.
//!
//! The model gives meaning to the scalar and control instructions the laws
//! need: memory is a map from frame-relative addresses to canonical field
//! elements, the program counter is a block index and an offset within it,
//! and a block's end falls through to the physically next block. Opaque
//! instructions (hints, cryptographic primitives, prints) are outside the
//! model; the laws quantify over programs whose simulated instructions are
//! modeled.

use vstd::prelude::*;
use crate::compiler::{
    CompilerView, sp_alloc, sp_build, sp_for, sp_jump_to_loop_body, sp_jump_to_loop_body_inc,
    sp_new_block, sp_push_to, sp_resolve_breaks, sp_set_loop_var, sp_then_or_else, var_fp,
};
use crate::field::{FIELD_MODULUS, fadd, fmul, fsub};
use crate::instr::{AsmInstruction, HEAP_PTR};
use crate::instr::ValueOrConst;
use crate::ir::{DslIr, Ptr, Usize, ValueKind, Var, lemma_address_below_header, value_address};

verus! {

/// A machine state: the program counter as (block, offset) and the memory.
pub struct MachineState {
    pub block: int,
    pub idx: int,
    pub mem: Map<int, int>,
}

/// The straight-line scalar instructions the model executes.
pub open spec fn non_control(i: AsmInstruction) -> bool {
    match i {
        AsmInstruction::ImmF(_, _) => true,
        AsmInstruction::AddF(_, _, _) => true,
        AsmInstruction::AddFI(_, _, _) => true,
        AsmInstruction::SubF(_, _, _) => true,
        AsmInstruction::SubFI(_, _, _) => true,
        AsmInstruction::SubFIN(_, _, _) => true,
        AsmInstruction::MulF(_, _, _) => true,
        AsmInstruction::MulFI(_, _, _) => true,
        _ => false,
    }
}

/// The cell a straight-line instruction writes.
pub open spec fn write_addr(i: AsmInstruction) -> int {
    match i {
        AsmInstruction::ImmF(a, _) => a as int,
        AsmInstruction::AddF(a, _, _) => a as int,
        AsmInstruction::AddFI(a, _, _) => a as int,
        AsmInstruction::SubF(a, _, _) => a as int,
        AsmInstruction::SubFI(a, _, _) => a as int,
        AsmInstruction::SubFIN(a, _, _) => a as int,
        AsmInstruction::MulF(a, _, _) => a as int,
        AsmInstruction::MulFI(a, _, _) => a as int,
        _ => 0,
    }
}

/// The memory left by one straight-line instruction.
pub open spec fn instr_effect(mem: Map<int, int>, i: AsmInstruction) -> Map<int, int> {
    match i {
        AsmInstruction::ImmF(a, imm) => mem.insert(a as int, imm as int),
        AsmInstruction::AddF(a, b, c) => mem.insert(a as int, fadd(mem[b as int], mem[c as int])),
        AsmInstruction::AddFI(a, b, imm) => mem.insert(a as int, fadd(mem[b as int], imm as int)),
        AsmInstruction::SubF(a, b, c) => mem.insert(a as int, fsub(mem[b as int], mem[c as int])),
        AsmInstruction::SubFI(a, b, imm) => mem.insert(a as int, fsub(mem[b as int], imm as int)),
        AsmInstruction::SubFIN(a, imm, b) => mem.insert(
            a as int,
            fsub(imm as int, mem[b as int]),
        ),
        AsmInstruction::MulF(a, b, c) => mem.insert(a as int, fmul(mem[b as int], mem[c as int])),
        AsmInstruction::MulFI(a, b, imm) => mem.insert(a as int, fmul(mem[b as int], imm as int)),
        _ => mem,
    }
}

/// The memory left by a straight-line instruction sequence.
pub open spec fn block_effect(mem: Map<int, int>, instrs: Seq<AsmInstruction>) -> Map<int, int>
    decreases instrs.len(),
{
    if instrs.len() == 0 {
        mem
    } else {
        block_effect(instr_effect(mem, instrs[0]), instrs.drop_first())
    }
}

/// One step of the machine: execute the instruction under the program
/// counter, or fall through to the next block at a block's end. A counter
/// outside the program, or an instruction outside the model, is stuck.
pub open spec fn step(p: Seq<Seq<AsmInstruction>>, s: MachineState) -> MachineState {
    if !(0 <= s.block < p.len()) {
        s
    } else if !(0 <= s.idx < p[s.block].len()) {
        MachineState { block: s.block + 1, idx: 0, ..s }
    } else {
        let i = p[s.block][s.idx];
        if non_control(i) {
            MachineState { idx: s.idx + 1, mem: instr_effect(s.mem, i), ..s }
        } else {
            match i {
                AsmInstruction::Jump(t) => MachineState { block: t as int, idx: 0, ..s },
                AsmInstruction::Beq(t, a, b) => if s.mem[a as int] == s.mem[b as int] {
                    MachineState { block: t as int, idx: 0, ..s }
                } else {
                    MachineState { idx: s.idx + 1, ..s }
                },
                AsmInstruction::BeqI(t, a, imm) => if s.mem[a as int] == imm as int {
                    MachineState { block: t as int, idx: 0, ..s }
                } else {
                    MachineState { idx: s.idx + 1, ..s }
                },
                AsmInstruction::Bne(t, a, b) => if s.mem[a as int] != s.mem[b as int] {
                    MachineState { block: t as int, idx: 0, ..s }
                } else {
                    MachineState { idx: s.idx + 1, ..s }
                },
                AsmInstruction::BneI(t, a, imm) => if s.mem[a as int] != imm as int {
                    MachineState { block: t as int, idx: 0, ..s }
                } else {
                    MachineState { idx: s.idx + 1, ..s }
                },
                AsmInstruction::BneInc(t, a, b) => {
                    let m2 = s.mem.insert(a as int, fadd(s.mem[a as int], 1));
                    if m2[a as int] != m2[b as int] {
                        MachineState { block: t as int, idx: 0, mem: m2 }
                    } else {
                        MachineState { idx: s.idx + 1, mem: m2, ..s }
                    }
                },
                AsmInstruction::BneIInc(t, a, imm) => {
                    let m2 = s.mem.insert(a as int, fadd(s.mem[a as int], 1));
                    if m2[a as int] != imm as int {
                        MachineState { block: t as int, idx: 0, mem: m2 }
                    } else {
                        MachineState { idx: s.idx + 1, mem: m2, ..s }
                    }
                },
                _ => s,
            }
        }
    }
}

/// The state after `n` steps.
pub open spec fn run(p: Seq<Seq<AsmInstruction>>, s: MachineState, n: nat) -> MachineState
    decreases n,
{
    if n == 0 {
        s
    } else {
        run(p, step(p, s), (n - 1) as nat)
    }
}

/// How often the first `n` steps enter the head of block `b`.
pub open spec fn visits(p: Seq<Seq<AsmInstruction>>, s: MachineState, n: nat, b: int) -> nat
    decreases n,
{
    if n == 0 {
        0
    } else {
        let s1 = step(p, s);
        (if s1.block == b && s1.idx == 0 {
            1nat
        } else {
            0nat
        }) + visits(p, s1, (n - 1) as nat, b)
    }
}

/// One step of `run`.
pub proof fn lemma_run_one(p: Seq<Seq<AsmInstruction>>, s: MachineState)
    ensures
        run(p, s, 1) == step(p, s),
{
    assert(run(p, s, 1) == run(p, step(p, s), 0));
}

/// Runs compose: `m + n` steps are `m` steps then `n` steps.
pub proof fn lemma_run_add(p: Seq<Seq<AsmInstruction>>, s: MachineState, m: nat, n: nat)
    ensures
        run(p, s, m + n) == run(p, run(p, s, m), n),
    decreases m,
{
    if m > 0 {
        lemma_run_add(p, step(p, s), (m - 1) as nat, n);
    }
}

/// Visit counts compose the same way.
pub proof fn lemma_visits_add(p: Seq<Seq<AsmInstruction>>, s: MachineState, m: nat, n: nat, b: int)
    ensures
        visits(p, s, m + n, b) == visits(p, s, m, b) + visits(p, run(p, s, m), n, b),
    decreases m,
{
    if m > 0 {
        lemma_visits_add(p, step(p, s), (m - 1) as nat, n, b);
    }
}

/// Straight-line instructions run one by one to the given stop position,
/// leaving exactly the folded memory effect and entering no block head on
/// the way.
pub proof fn lemma_run_to(
    p: Seq<Seq<AsmInstruction>>,
    b: int,
    k: int,
    stop: int,
    mem: Map<int, int>,
)
    requires
        0 <= b < p.len(),
        0 <= k <= stop <= p[b].len(),
        forall|j: int| k <= j < stop ==> non_control(#[trigger] p[b][j]),
    ensures
        run(p, MachineState { block: b, idx: k, mem }, (stop - k) as nat) == (MachineState {
            block: b,
            idx: stop,
            mem: block_effect(mem, p[b].subrange(k, stop)),
        }),
        forall|c: int|
            #[trigger] visits(p, MachineState { block: b, idx: k, mem }, (stop - k) as nat, c)
                == 0,
    decreases stop - k,
{
    let s0 = MachineState { block: b, idx: k, mem };
    let n = (stop - k) as nat;
    if k == stop {
        assert(p[b].subrange(k, stop) =~= Seq::<AsmInstruction>::empty());
    } else {
        let i = p[b][k];
        assert(non_control(i));
        let s1 = step(p, s0);
        assert(s1 == (MachineState { block: b, idx: k + 1, mem: instr_effect(mem, i) }));
        lemma_run_to(p, b, k + 1, stop, instr_effect(mem, i));
        assert(p[b].subrange(k, stop).drop_first() =~= p[b].subrange(k + 1, stop));
        assert(p[b].subrange(k, stop)[0] == i);
        assert(block_effect(mem, p[b].subrange(k, stop)) == block_effect(
            instr_effect(mem, i),
            p[b].subrange(k + 1, stop),
        ));
        assert(run(p, s0, n) == run(p, s1, (n - 1) as nat));
        assert forall|c: int| #[trigger] visits(p, s0, n, c) == 0 by {
            assert(visits(p, s0, n, c) == (if s1.block == c && s1.idx == 0 {
                1nat
            } else {
                0nat
            }) + visits(p, s1, (n - 1) as nat, c));
            assert(s1.idx != 0);
        }
    }
}

/// A straight-line effect leaves every cell it does not write untouched.
pub proof fn lemma_block_effect_frame(mem: Map<int, int>, instrs: Seq<AsmInstruction>, addr: int)
    requires
        forall|j: int| 0 <= j < instrs.len() ==> non_control(#[trigger] instrs[j]),
        forall|j: int| 0 <= j < instrs.len() ==> write_addr(#[trigger] instrs[j]) != addr,
        mem.dom().contains(addr),
    ensures
        block_effect(mem, instrs).dom().contains(addr),
        block_effect(mem, instrs)[addr] == mem[addr],
    decreases instrs.len(),
{
    if instrs.len() > 0 {
        lemma_block_effect_frame(instr_effect(mem, instrs[0]), instrs.drop_first(), addr);
    }
}

/// LAW (bump-allocator discipline): an allocation with constant length `l`
/// and element size `sz` compiles to two instructions; executed from a state
/// whose heap-pointer cell holds the canonical value `h`, they bind the
/// pointer's cell to `h` and advance the heap pointer by exactly `l * sz`
/// in the field. A subsequent constant allocation observes the advanced
/// pointer: its own cell receives exactly the value the first allocation
/// left behind.
pub proof fn theorem_alloc_advances_heap(
    v: CompilerView,
    p1: Ptr,
    l1: usize,
    s1: usize,
    p2: Ptr,
    l2: usize,
    s2: usize,
    mem: Map<int, int>,
    h: int,
)
    requires
        v.blocks.len() >= 1,
        crate::ir::ptr_wf(p1),
        crate::ir::ptr_wf(p2),
        mem.dom().contains(HEAP_PTR as int),
        mem[HEAP_PTR as int] == h,
        0 <= h < FIELD_MODULUS as int,
    ensures
        ({
            let v1 = sp_alloc(v, p1, Usize::Const(l1), s1 as int);
            let v2 = sp_alloc(v1, p2, Usize::Const(l2), s2 as int);
            let b = v.cur_label();
            let k = v.blocks[b].len() as int;
            let end = run(v2.blocks, MachineState { block: b, idx: k, mem }, 4);
            let h1 = fadd(h, fmul(l1 as int, s1 as int));
            &&& end.block == b && end.idx == k + 4
            &&& end.mem[HEAP_PTR as int] == fadd(h1, fmul(l2 as int, s2 as int))
            &&& end.mem[var_fp(p2.address) as int] == h1
            &&& (p1.address != p2.address ==> end.mem[var_fp(p1.address) as int] == h)
        }),
{
    let v1 = sp_alloc(v, p1, Usize::Const(l1), s1 as int);
    let v2 = sp_alloc(v1, p2, Usize::Const(l2), s2 as int);
    let b = v.cur_label();
    let k = v.blocks[b].len() as int;
    let a1 = var_fp(p1.address) as int;
    let a2 = var_fp(p2.address) as int;
    let m1 = fmul(l1 as int, s1 as int) as u32;
    let m2 = fmul(l2 as int, s2 as int) as u32;
    let i1 = AsmInstruction::AddFI(var_fp(p1.address), HEAP_PTR, 0);
    let i2 = AsmInstruction::AddFI(HEAP_PTR, HEAP_PTR, m1);
    let i3 = AsmInstruction::AddFI(var_fp(p2.address), HEAP_PTR, 0);
    let i4 = AsmInstruction::AddFI(HEAP_PTR, HEAP_PTR, m2);
    lemma_address_below_header(ValueKind::Var, p1.address.0 as int);
    lemma_address_below_header(ValueKind::Var, p2.address.0 as int);
    assert(a1 == value_address(ValueKind::Var, p1.address.0 as int));
    assert(a2 == value_address(ValueKind::Var, p2.address.0 as int));
    assert(a1 != HEAP_PTR as int);
    assert(a2 != HEAP_PTR as int);
    if p1.address != p2.address {
        if a1 == a2 {
            crate::ir::lemma_address_injective(
                ValueKind::Var,
                p1.address.0 as int,
                p2.address.0 as int,
            );
        }
        assert(a1 != a2);
    }
    assert(v2.blocks.len() == v.blocks.len());
    assert(v2.blocks[b] =~= v.blocks[b].push(i1).push(i2).push(i3).push(i4));
    let blk = v2.blocks[b];
    assert(blk[k] == i1 && blk[k + 1] == i2 && blk[k + 2] == i3 && blk[k + 3] == i4);
    let s0 = MachineState { block: b, idx: k, mem };
    let e1 = step(v2.blocks, s0);
    assert(e1.mem == mem.insert(a1, fadd(h, 0)));
    assert(fadd(h, 0) == h);
    let e2 = step(v2.blocks, e1);
    assert(e1.mem[HEAP_PTR as int] == h);
    let h1 = fadd(h, m1 as int);
    assert(e2.mem == e1.mem.insert(HEAP_PTR as int, h1));
    let e3 = step(v2.blocks, e2);
    assert(e2.mem[HEAP_PTR as int] == h1);
    assert(0 <= h1 < FIELD_MODULUS as int);
    assert(fadd(h1, 0) == h1);
    assert(e3.mem == e2.mem.insert(a2, h1));
    let e4 = step(v2.blocks, e3);
    assert(e3.mem[HEAP_PTR as int] == h1);
    assert(e4.mem == e3.mem.insert(HEAP_PTR as int, fadd(h1, m2 as int)));
    assert(run(v2.blocks, s0, 4) == run(v2.blocks, e1, 3));
    assert(run(v2.blocks, e1, 3) == run(v2.blocks, e2, 2));
    assert(run(v2.blocks, e2, 2) == run(v2.blocks, e3, 1));
    assert(run(v2.blocks, e3, 1) == run(v2.blocks, e4, 0));
    assert(run(v2.blocks, s0, 4) == e4);
    assert(m1 as int == fmul(l1 as int, s1 as int));
    assert(m2 as int == fmul(l2 as int, s2 as int));
}

/// LAW (conditional linearization): a two-branch conditional on a constant
/// comparison compiles so that straight-line simulation, starting at the
/// guarding branch, reaches exactly one of the then or else paths, per the
/// condition's truth value, and both paths converge at the same
/// after-block. The hypotheses say the two bodies compile to straight-line
/// instructions within their own single blocks.
pub proof fn theorem_if_convergence(
    v: CompilerView,
    lhs: i32,
    imm: u32,
    is_eq: bool,
    t: Seq<DslIr>,
    e: Seq<DslIr>,
    mem: Map<int, int>,
)
    requires
        v.blocks.len() >= 1,
        v.blocks.len() + 3 <= FIELD_MODULUS as int,
        mem.dom().contains(lhs as int),
        ({
            let b = v.cur_label();
            let v2 = sp_build(sp_new_block(v), t);
            let v4 = sp_build(sp_new_block(v2), e);
            &&& v2.blocks.len() == v.blocks.len() + 1
            &&& v4.blocks.len() == v.blocks.len() + 2
            &&& v4.blocks[b + 1] == v2.blocks[b + 1]
            &&& forall|j: int|
                0 <= j < v2.blocks[b + 1].len() ==> non_control(#[trigger] v2.blocks[b + 1][j])
            &&& forall|j: int|
                0 <= j < v4.blocks[b + 2].len() ==> non_control(#[trigger] v4.blocks[b + 2][j])
        }),
    ensures
        ({
            let b = v.cur_label();
            let after = b + 3;
            let v2 = sp_build(sp_new_block(v), t);
            let v4 = sp_build(sp_new_block(v2), e);
            let tb = v2.blocks[b + 1];
            let eb = v4.blocks[b + 2];
            let r = sp_then_or_else(v, lhs, ValueOrConst::Const(imm), is_eq, t, e);
            let p = r.blocks;
            let cond = if is_eq {
                mem[lhs as int] == imm as int
            } else {
                mem[lhs as int] != imm as int
            };
            let s0 = MachineState { block: b, idx: p[b].len() - 1, mem };
            &&& p.len() == v.blocks.len() + 3
            &&& (cond ==> run(p, s0, 2) == (MachineState { block: b + 1, idx: 0, mem }))
            &&& (!cond ==> step(p, s0) == (MachineState { block: b + 2, idx: 0, mem }))
            &&& (cond ==> run(p, s0, (tb.len() + 3) as nat) == (MachineState {
                block: after,
                idx: 0,
                mem: block_effect(mem, tb),
            }) && visits(p, s0, (tb.len() + 3) as nat, b + 2) == 0)
            &&& (!cond ==> run(p, s0, (eb.len() + 2) as nat) == (MachineState {
                block: after,
                idx: 0,
                mem: block_effect(mem, eb),
            }) && visits(p, s0, (eb.len() + 2) as nat, b + 1) == 0)
        }),
{
    let b = v.cur_label();
    let after = b + 3;
    let v1 = sp_new_block(v);
    let v2 = sp_build(v1, t);
    let v3 = sp_new_block(v2);
    let v4 = sp_build(v3, e);
    let tb = v2.blocks[b + 1];
    let eb = v4.blocks[b + 2];
    let br = crate::compiler::sp_branch(lhs, ValueOrConst::Const(imm), is_eq, (b + 2) as u32);
    let r = sp_then_or_else(v, lhs, ValueOrConst::Const(imm), is_eq, t, e);
    let p = r.blocks;
    assert(p.len() == v.blocks.len() + 3);
    assert(p[b] == v4.blocks[b].push(br));
    assert(p[b + 1] == tb.push(AsmInstruction::Jump(after as u32)));
    assert(p[b + 2] == eb);
    assert(p[b].len() >= 1);
    let cond = if is_eq {
        mem[lhs as int] == imm as int
    } else {
        mem[lhs as int] != imm as int
    };
    let s0 = MachineState { block: b, idx: p[b].len() - 1, mem };
    assert(p[b][p[b].len() - 1] == br);
    let s1 = step(p, s0);
    if cond {
        assert(s1 == (MachineState { block: b, idx: p[b].len() as int, mem }));
        let s2 = step(p, s1);
        assert(s2 == (MachineState { block: b + 1, idx: 0, mem }));
        lemma_run_one(p, s1);
        assert(run(p, s0, 2) == run(p, s1, 1));
        assert(run(p, s0, 2) == s2);
        assert(forall|j: int| 0 <= j < tb.len() ==> non_control(#[trigger] p[b + 1][j]));
        lemma_run_to(p, b + 1, 0, tb.len() as int, mem);
        assert(p[b + 1].subrange(0, tb.len() as int) =~= tb);
        let s3 = run(p, s2, tb.len() as nat);
        assert(s3 == (MachineState {
            block: b + 1,
            idx: tb.len() as int,
            mem: block_effect(mem, tb),
        }));
        let s4 = step(p, s3);
        assert(p[b + 1][tb.len() as int] == AsmInstruction::Jump(after as u32));
        assert(s4 == (MachineState { block: after, idx: 0, mem: block_effect(mem, tb) }));
        assert((tb.len() + 3) as nat == 2 + (tb.len() as nat + 1));
        lemma_run_add(p, s0, 2, (tb.len() + 1) as nat);
        lemma_run_add(p, s2, tb.len() as nat, 1);
        lemma_run_one(p, s3);
        assert(run(p, s2, (tb.len() + 1) as nat) == run(p, s3, 1));
        assert(run(p, s3, 1) == s4);
        assert(run(p, s0, (tb.len() + 3) as nat) == s4);
        lemma_visits_add(p, s0, 2, (tb.len() + 1) as nat, b + 2);
        lemma_visits_add(p, s2, tb.len() as nat, 1, b + 2);
        assert(visits(p, s0, 2, b + 2) == (if s1.block == b + 2 && s1.idx == 0 {
            1nat
        } else {
            0nat
        }) + visits(p, s1, 1, b + 2));
        assert(visits(p, s1, 1, b + 2) == (if s2.block == b + 2 && s2.idx == 0 {
            1nat
        } else {
            0nat
        }) + visits(p, s2, 0, b + 2));
        assert(visits(p, s0, 2, b + 2) == 0);
        assert(visits(p, s2, tb.len() as nat, b + 2) == 0);
        assert(visits(p, s3, 1, b + 2) == (if s4.block == b + 2 && s4.idx == 0 {
            1nat
        } else {
            0nat
        }) + visits(p, s4, 0, b + 2));
        assert(visits(p, s0, (tb.len() + 3) as nat, b + 2) == 0);
    } else {
        assert(s1 == (MachineState { block: b + 2, idx: 0, mem }));
        assert(forall|j: int| 0 <= j < eb.len() ==> non_control(#[trigger] p[b + 2][j]));
        lemma_run_to(p, b + 2, 0, eb.len() as int, mem);
        assert(p[b + 2].subrange(0, eb.len() as int) =~= eb);
        let s2 = run(p, s1, eb.len() as nat);
        assert(s2 == (MachineState {
            block: b + 2,
            idx: eb.len() as int,
            mem: block_effect(mem, eb),
        }));
        let s3 = step(p, s2);
        assert(s3 == (MachineState { block: after, idx: 0, mem: block_effect(mem, eb) }));
        assert((eb.len() + 2) as nat == 1 + (eb.len() as nat + 1));
        lemma_run_add(p, s0, 1, (eb.len() + 1) as nat);
        lemma_run_add(p, s1, eb.len() as nat, 1);
        lemma_run_one(p, s0);
        lemma_run_one(p, s2);
        assert(run(p, s0, 1) == s1);
        assert(run(p, s2, 1) == s3);
        assert(run(p, s0, (eb.len() + 2) as nat) == s3);
        lemma_visits_add(p, s0, 1, (eb.len() + 1) as nat, b + 1);
        lemma_visits_add(p, s1, eb.len() as nat, 1, b + 1);
        assert(visits(p, s0, 1, b + 1) == (if s1.block == b + 1 && s1.idx == 0 {
            1nat
        } else {
            0nat
        }) + visits(p, s1, 0, b + 1));
        assert(visits(p, s1, eb.len() as nat, b + 1) == 0);
        assert(visits(p, s2, 1, b + 1) == (if s3.block == b + 1 && s3.idx == 0 {
            1nat
        } else {
            0nat
        }) + visits(p, s3, 0, b + 1));
        assert(visits(p, s0, (eb.len() + 2) as nat, b + 1) == 0);
    }
}

/// LAW (single-branch conditional linearization): a one-branch conditional
/// on a constant comparison compiles so that straight-line simulation from
/// the guarding branch either falls through into the then-block (condition
/// true) or jumps directly to the after-block (condition false); the then
/// path falls through into the same after-block, so both outcomes converge
/// there. The hypothesis says the body compiles to straight-line
/// instructions within its own single block.
pub proof fn theorem_then_convergence(
    v: CompilerView,
    lhs: i32,
    imm: u32,
    is_eq: bool,
    t: Seq<DslIr>,
    mem: Map<int, int>,
)
    requires
        v.blocks.len() >= 1,
        v.blocks.len() + 2 <= FIELD_MODULUS as int,
        mem.dom().contains(lhs as int),
        ({
            let b = v.cur_label();
            let v2 = sp_build(sp_new_block(v), t);
            &&& v2.blocks.len() == v.blocks.len() + 1
            &&& forall|j: int|
                0 <= j < v2.blocks[b + 1].len() ==> non_control(#[trigger] v2.blocks[b + 1][j])
        }),
    ensures
        ({
            let b = v.cur_label();
            let after = b + 2;
            let v2 = sp_build(sp_new_block(v), t);
            let tb = v2.blocks[b + 1];
            let r = crate::compiler::sp_then(v, lhs, ValueOrConst::Const(imm), is_eq, t);
            let p = r.blocks;
            let cond = if is_eq {
                mem[lhs as int] == imm as int
            } else {
                mem[lhs as int] != imm as int
            };
            let s0 = MachineState { block: b, idx: p[b].len() - 1, mem };
            &&& p.len() == v.blocks.len() + 2
            &&& (cond ==> run(p, s0, 2) == (MachineState { block: b + 1, idx: 0, mem }))
            &&& (cond ==> run(p, s0, (tb.len() + 3) as nat) == (MachineState {
                block: after,
                idx: 0,
                mem: block_effect(mem, tb),
            }))
            &&& (!cond ==> step(p, s0) == (MachineState { block: after, idx: 0, mem })
                && visits(p, s0, 1, b + 1) == 0)
        }),
{
    let b = v.cur_label();
    let after = b + 2;
    let v1 = sp_new_block(v);
    let v2 = sp_build(v1, t);
    let v3 = sp_new_block(v2);
    let tb = v2.blocks[b + 1];
    let br = crate::compiler::sp_branch(lhs, ValueOrConst::Const(imm), is_eq, after as u32);
    let r = crate::compiler::sp_then(v, lhs, ValueOrConst::Const(imm), is_eq, t);
    let p = r.blocks;
    assert(p.len() == v.blocks.len() + 2);
    assert(p[b] == v2.blocks[b].push(br));
    assert(p[b + 1] == tb);
    assert(p[b + 2] =~= Seq::<AsmInstruction>::empty());
    assert(p[b].len() >= 1);
    let cond = if is_eq {
        mem[lhs as int] == imm as int
    } else {
        mem[lhs as int] != imm as int
    };
    let s0 = MachineState { block: b, idx: p[b].len() - 1, mem };
    assert(p[b][p[b].len() - 1] == br);
    let s1 = step(p, s0);
    if cond {
        assert(s1 == (MachineState { block: b, idx: p[b].len() as int, mem }));
        let s2 = step(p, s1);
        assert(s2 == (MachineState { block: b + 1, idx: 0, mem }));
        lemma_run_one(p, s1);
        assert(run(p, s0, 2) == run(p, s1, 1));
        assert(run(p, s0, 2) == s2);
        assert(forall|j: int| 0 <= j < tb.len() ==> non_control(#[trigger] p[b + 1][j]));
        lemma_run_to(p, b + 1, 0, tb.len() as int, mem);
        assert(p[b + 1].subrange(0, tb.len() as int) =~= tb);
        let s3 = run(p, s2, tb.len() as nat);
        assert(s3 == (MachineState {
            block: b + 1,
            idx: tb.len() as int,
            mem: block_effect(mem, tb),
        }));
        let s4 = step(p, s3);
        assert(s4 == (MachineState { block: after, idx: 0, mem: block_effect(mem, tb) }));
        assert((tb.len() + 3) as nat == 2 + (tb.len() as nat + 1));
        lemma_run_add(p, s0, 2, (tb.len() + 1) as nat);
        lemma_run_add(p, s2, tb.len() as nat, 1);
        lemma_run_one(p, s3);
        assert(run(p, s2, (tb.len() + 1) as nat) == run(p, s3, 1));
        assert(run(p, s3, 1) == s4);
        assert(run(p, s0, (tb.len() + 3) as nat) == s4);
    } else {
        assert(s1 == (MachineState { block: after, idx: 0, mem }));
        assert(visits(p, s0, 1, b + 1) == (if s1.block == b + 1 && s1.idx == 0 {
            1nat
        } else {
            0nat
        }) + visits(p, s1, 0, b + 1));
    }
}

/// One full pass over a unit-step loop's body block: from the body head
/// with the loop variable at `x`, execution runs the straight-line body,
/// then the fused increment-and-branch re-enters the body head until the
/// variable reaches the bound, when control leaves through the bottom test
/// to the after-block. The body head is entered `end - x - 1` further
/// times.
proof fn lemma_loop_body_runs(
    p: Seq<Seq<AsmInstruction>>,
    bb: int,
    tu: u32,
    au: i32,
    eu: u32,
    end: int,
    x: int,
    m: Map<int, int>,
)
    requires
        0 <= bb,
        bb + 2 < p.len(),
        p[bb].len() >= 1,
        tu as int == bb,
        eu as int == end,
        forall|j: int|
            0 <= j < p[bb].len() - 1 ==> non_control(#[trigger] p[bb][j]) && write_addr(
                p[bb][j],
            ) != au as int,
        p[bb][p[bb].len() - 1] == AsmInstruction::BneIInc(tu, au, eu),
        p[bb + 1] =~= seq![AsmInstruction::BneI(tu, au, eu)],
        m.dom().contains(au as int),
        m[au as int] == x,
        0 <= x < end,
        end < FIELD_MODULUS as int,
    ensures
        ({
            let blen = p[bb].len() - 1;
            let fuel = ((end - x - 1) * (blen + 1) + blen + 4) as nat;
            let fin = run(p, MachineState { block: bb, idx: 0, mem: m }, fuel);
            &&& fin.block == bb + 2 && fin.idx == 0
            &&& fin.mem.dom().contains(au as int) && fin.mem[au as int] == end
            &&& visits(p, MachineState { block: bb, idx: 0, mem: m }, fuel, bb) == end - x - 1
        }),
    decreases end - x,
{
    let blen = p[bb].len() - 1;
    let fuel = ((end - x - 1) * (blen + 1) + blen + 4) as nat;
    let s0 = MachineState { block: bb, idx: 0, mem: m };
    let body = p[bb].subrange(0, blen);
    assert(forall|j: int| 0 <= j < blen ==> non_control(#[trigger] p[bb][j]));
    lemma_run_to(p, bb, 0, blen, m);
    assert forall|j: int| 0 <= j < body.len() implies non_control(#[trigger] body[j])
        && write_addr(body[j]) != au as int by {
        assert(body[j] == p[bb][j]);
    }
    lemma_block_effect_frame(m, body, au as int);
    let m1 = block_effect(m, body);
    let s1 = MachineState { block: bb, idx: blen, mem: m1 };
    assert(run(p, s0, blen as nat) == s1);
    assert(m1[au as int] == x);
    let m2 = m1.insert(au as int, fadd(x, 1));
    assert(fadd(x, 1) == x + 1);
    let s2 = step(p, s1);
    lemma_run_add(p, s0, blen as nat, 1);
    lemma_run_one(p, s1);
    lemma_visits_add(p, s0, blen as nat, 1, bb);
    if x + 1 < end {
        assert(s2 == (MachineState { block: bb, idx: 0, mem: m2 }));
        lemma_loop_body_runs(p, bb, tu, au, eu, end, x + 1, m2);
        let fuel2 = ((end - x - 2) * (blen + 1) + blen + 4) as nat;
        assert((end - x - 1) * (blen + 1) == (end - x - 2) * (blen + 1) + (blen + 1))
            by (nonlinear_arith);
        assert(fuel == (blen + 1) as nat + fuel2);
        lemma_run_add(p, s0, (blen + 1) as nat, fuel2);
        assert(run(p, s0, (blen + 1) as nat) == s2);
        assert(run(p, s0, fuel) == run(p, s2, fuel2));
        lemma_visits_add(p, s0, (blen + 1) as nat, fuel2, bb);
        assert(visits(p, s1, 1, bb) == 1) by {
            assert(visits(p, s1, 1, bb) == (if s2.block == bb && s2.idx == 0 {
                1nat
            } else {
                0nat
            }) + visits(p, s2, 0, bb));
        }
        assert(visits(p, s0, (blen + 1) as nat, bb) == 1);
    } else {
        assert(x + 1 == end);
        assert(m2[au as int] == end);
        assert(s2 == (MachineState { block: bb, idx: blen + 1, mem: m2 }));
        assert((end - x - 1) * (blen + 1) == 0) by (nonlinear_arith)
            requires
                end - x - 1 == 0,
        ;
        let s3 = step(p, s2);
        assert(s3 == (MachineState { block: bb + 1, idx: 0, mem: m2 }));
        let s4 = step(p, s3);
        assert(p[bb + 1][0] == AsmInstruction::BneI(tu, au, eu));
        assert(s4 == (MachineState { block: bb + 1, idx: 1, mem: m2 }));
        let s5 = step(p, s4);
        assert(p[bb + 1].len() == 1);
        assert(s5 == (MachineState { block: bb + 2, idx: 0, mem: m2 }));
        assert(fuel == (blen + 1) as nat + 3);
        lemma_run_add(p, s0, (blen + 1) as nat, 3);
        assert(run(p, s0, (blen + 1) as nat) == s2);
        lemma_run_one(p, s2);
        lemma_run_add(p, s2, 1, 2);
        lemma_run_one(p, s3);
        lemma_run_add(p, s3, 1, 1);
        lemma_run_one(p, s4);
        assert(run(p, s2, 3) == s5);
        assert(run(p, s0, fuel) == s5);
        lemma_visits_add(p, s0, (blen + 1) as nat, 3, bb);
        assert(visits(p, s1, 1, bb) == 0) by {
            assert(visits(p, s1, 1, bb) == (if s2.block == bb && s2.idx == 0 {
                1nat
            } else {
                0nat
            }) + visits(p, s2, 0, bb));
            assert(s2.idx != 0);
        }
        assert(visits(p, s2, 3, bb) == 0) by {
            assert(visits(p, s2, 3, bb) == (if s3.block == bb && s3.idx == 0 {
                1nat
            } else {
                0nat
            }) + visits(p, s3, 2, bb));
            assert(visits(p, s3, 2, bb) == (if s4.block == bb && s4.idx == 0 {
                1nat
            } else {
                0nat
            }) + visits(p, s4, 1, bb));
            assert(visits(p, s4, 1, bb) == (if s5.block == bb && s5.idx == 0 {
                1nat
            } else {
                0nat
            }) + visits(p, s5, 0, bb));
        }
        assert(visits(p, s0, fuel, bb) == 0);
    }
}

/// LAW (unit-step loop count): a loop with step one and constant bounds
/// `[start, end)`, whose body compiles to straight-line instructions in the
/// single body block none of which writes the loop variable's cell,
/// executes its body exactly `end - start` times: simulation from the
/// loop-variable setup enters the body block's head exactly that often,
/// and ends at the head of the after-loop block with the loop variable at
/// the end bound.
pub proof fn theorem_unit_loop_count(
    v: CompilerView,
    start: usize,
    end: usize,
    lv: Var,
    body: Seq<DslIr>,
    mem: Map<int, int>,
)
    requires
        v.blocks.len() >= 1,
        v.blocks.len() + 3 <= FIELD_MODULUS as int,
        v.contains_break.len() == 0,
        start <= end,
        (end as int) < FIELD_MODULUS as int,
        mem.dom().contains(var_fp(lv) as int),
        ({
            let b = v.cur_label();
            let v1 = sp_set_loop_var(v, Usize::Const(start), lv);
            let v2 = CompilerView {
                break_label: Some(v1.break_label_map.len() as u32),
                break_label_map: v1.break_label_map.push(None),
                ..v1
            };
            let v4 = sp_build(sp_new_block(v2), body);
            &&& v4.blocks.len() == v.blocks.len() + 1
            &&& v4.blocks[b] == v1.blocks[b]
            &&& v4.contains_break == v.contains_break
            &&& forall|j: int|
                0 <= j < v4.blocks[b + 1].len() ==> non_control(#[trigger] v4.blocks[b + 1][j])
                    && write_addr(v4.blocks[b + 1][j]) != var_fp(lv) as int
        }),
    ensures
        ({
            let b = v.cur_label();
            let r = sp_for(v, Usize::Const(start), Usize::Const(end), 1, lv, body);
            let p = r.blocks;
            let iters = end - start;
            let blen = p[b + 1].len() - 1;
            let fuel = (if iters == 0 {
                4
            } else {
                3 + (iters - 1) * (blen + 1) + blen + 4
            }) as nat;
            let s0 = MachineState { block: b, idx: p[b].len() - 2, mem };
            let fin = run(p, s0, fuel);
            &&& p.len() == v.blocks.len() + 3
            &&& fin.block == b + 3 && fin.idx == 0
            &&& fin.mem[var_fp(lv) as int] == end as int
            &&& visits(p, s0, fuel, b + 1) == iters
        }),
{
    let b = v.cur_label();
    let lvfp = var_fp(lv) as int;
    let v1 = sp_set_loop_var(v, Usize::Const(start), lv);
    let bl = v1.break_label_map.len() as u32;
    let v2 = CompilerView {
        break_label: Some(bl),
        break_label_map: v1.break_label_map.push(None),
        ..v1
    };
    let v3 = sp_new_block(v2);
    let v4 = sp_build(v3, body);
    let tb = v4.blocks[b + 1];
    let r = sp_for(v, Usize::Const(start), Usize::Const(end), 1, lv, body);
    let bneinc = AsmInstruction::BneIInc((b + 1) as u32, var_fp(lv), end as u32);
    let bne = AsmInstruction::BneI((b + 1) as u32, var_fp(lv), end as u32);
    let v5 = sp_jump_to_loop_body_inc(v4, Usize::Const(end), lv, (b + 1) as u32);
    let v6 = sp_new_block(v5);
    let v7 = sp_jump_to_loop_body(v6, Usize::Const(end), lv, (b + 1) as u32);
    let v8 = sp_push_to(v7, b, AsmInstruction::Jump((b + 2) as u32));
    let v9 = sp_new_block(v8);
    let v10 = CompilerView {
        break_label: v.break_label,
        break_label_map: v9.break_label_map.update(bl as int, Some((b + 3) as u32)),
        ..v9
    };
    assert(r == sp_resolve_breaks(v10, bl, (b + 3) as u32));
    assert(r.blocks =~= v10.blocks);
    let p = r.blocks;
    assert(p.len() == v.blocks.len() + 3);
    assert(p[b] == v.blocks[b].push(AsmInstruction::ImmF(var_fp(lv), start as u32)).push(
        AsmInstruction::Jump((b + 2) as u32),
    ));
    assert(p[b + 1] == tb.push(bneinc));
    assert(p[b + 2] =~= seq![bne]);
    assert(p[b + 3] =~= Seq::<AsmInstruction>::empty());
    let blen = p[b + 1].len() - 1;
    assert(blen == tb.len());
    let iters = end - start;
    let fuel = (if iters == 0 {
        4
    } else {
        3 + (iters - 1) * (blen + 1) + blen + 4
    }) as nat;
    let s0 = MachineState { block: b, idx: p[b].len() - 2, mem };
    assert(p[b][p[b].len() - 2] == AsmInstruction::ImmF(var_fp(lv), start as u32));
    assert(p[b][p[b].len() - 1] == AsmInstruction::Jump((b + 2) as u32));
    let m1 = mem.insert(lvfp, start as int);
    let s1 = step(p, s0);
    assert(s1 == (MachineState { block: b, idx: p[b].len() - 1, mem: m1 }));
    let s2 = step(p, s1);
    assert(s2 == (MachineState { block: b + 2, idx: 0, mem: m1 }));
    let s3 = step(p, s2);
    assert(p[b + 2][0] == bne);
    if iters == 0 {
        assert(m1[lvfp] == end as int);
        assert(s3 == (MachineState { block: b + 2, idx: 1, mem: m1 }));
        let s4 = step(p, s3);
        assert(s4 == (MachineState { block: b + 3, idx: 0, mem: m1 }));
        lemma_run_one(p, s0);
        lemma_run_add(p, s0, 1, 3);
        lemma_run_one(p, s1);
        lemma_run_add(p, s1, 1, 2);
        lemma_run_one(p, s2);
        lemma_run_add(p, s2, 1, 1);
        lemma_run_one(p, s3);
        assert(run(p, s0, 4) == s4);
        assert(visits(p, s0, 4, b + 1) == 0) by {
            assert(visits(p, s0, 4, b + 1) == (if s1.block == b + 1 && s1.idx == 0 {
                1nat
            } else {
                0nat
            }) + visits(p, s1, 3, b + 1));
            assert(s1.idx != 0);
            assert(visits(p, s1, 3, b + 1) == (if s2.block == b + 1 && s2.idx == 0 {
                1nat
            } else {
                0nat
            }) + visits(p, s2, 2, b + 1));
            assert(visits(p, s2, 2, b + 1) == (if s3.block == b + 1 && s3.idx == 0 {
                1nat
            } else {
                0nat
            }) + visits(p, s3, 1, b + 1));
            assert(visits(p, s3, 1, b + 1) == (if s4.block == b + 1 && s4.idx == 0 {
                1nat
            } else {
                0nat
            }) + visits(p, s4, 0, b + 1));
        }
    } else {
        assert(m1[lvfp] == start as int && start < end);
        assert(s3 == (MachineState { block: b + 1, idx: 0, mem: m1 }));
        assert forall|j: int|
            0 <= j < p[b + 1].len() - 1 implies non_control(#[trigger] p[b + 1][j])
            && write_addr(p[b + 1][j]) != lvfp by {
            assert(p[b + 1][j] == tb[j]);
        }
        lemma_loop_body_runs(
            p,
            b + 1,
            (b + 1) as u32,
            var_fp(lv),
            end as u32,
            end as int,
            start as int,
            m1,
        );
        let fuel2 = ((end - start - 1) * (blen + 1) + blen + 4) as nat;
        assert(fuel == 3 + fuel2);
        lemma_run_one(p, s0);
        lemma_run_add(p, s0, 1, 2);
        lemma_run_one(p, s1);
        lemma_run_add(p, s1, 1, 1);
        lemma_run_one(p, s2);
        assert(run(p, s0, 3) == s3);
        lemma_run_add(p, s0, 3, fuel2);
        assert(run(p, s0, fuel) == run(p, s3, fuel2));
        lemma_visits_add(p, s0, 3, fuel2, b + 1);
        assert(visits(p, s0, 3, b + 1) == 1) by {
            assert(visits(p, s0, 3, b + 1) == (if s1.block == b + 1 && s1.idx == 0 {
                1nat
            } else {
                0nat
            }) + visits(p, s1, 2, b + 1));
            assert(s1.idx != 0);
            assert(visits(p, s1, 2, b + 1) == (if s2.block == b + 1 && s2.idx == 0 {
                1nat
            } else {
                0nat
            }) + visits(p, s2, 1, b + 1));
            assert(visits(p, s2, 1, b + 1) == (if s3.block == b + 1 && s3.idx == 0 {
                1nat
            } else {
                0nat
            }) + visits(p, s3, 0, b + 1));
        }
    }
}

} // verus!
