use asm_compiler::assemble::{AssembleError, AssemblyCode};
use asm_compiler::instr::BasicBlock;
use asm_compiler::compiler::{AsmCompiler, CompileError};
use asm_compiler::instr::{AsmInstruction, A0, HEAP_PTR, HEAP_START};
use asm_compiler::ir::{Array, DslIr, Ext, ExtImm, Felt, MemIndex, Ptr, Usize, Var};

fn fresh() -> AsmCompiler {
    AsmCompiler::new()
}

#[test]
fn empty_program_initializes_heap() {
    let mut c = fresh();
    let ops: Vec<DslIr> = vec![];
    c.build(&ops).unwrap();
    let mc = c.compile().unwrap();
    assert_eq!(mc.instructions, vec![AsmInstruction::ImmF(HEAP_PTR, HEAP_START)]);
    assert!(mc.labels.is_empty());
}

#[test]
fn golden_end_to_end() {
    // v0 <- 5; v1 <- 3; for lv in [0, 4) step 1 { if v0 == v1 { break }; b0 <- b0 + 1 }
    let v0 = Var(0);
    let v1 = Var(1);
    let lv = Var(2);
    let b0 = Var(3);
    let body = vec![
        DslIr::IfEq(v0, v1, vec![DslIr::Break], vec![]),
        DslIr::AddVI(b0, b0, 1),
    ];
    let ops = vec![
        DslIr::ImmV(v0, 5),
        DslIr::ImmV(v1, 3),
        DslIr::For(Usize::Const(0), Usize::Const(4), 1, lv, body),
    ];
    let mut c = fresh();
    c.build(&ops).unwrap();
    let mc = c.compile().unwrap();
    // Block layout (block: start address):
    //   0: 0  setup: heap init, v0, v1, lv, jump to the condition block
    //   1: 5  branching block of the conditional
    //   2: 6  then-block: the break, rewritten to a jump to the after-loop block
    //   3: 7  after-if block: increment, fused increment-and-branch to the body
    //   4: 9  loop condition: branch back to the body start
    //   5: 10 after-loop block (empty)
    let expected = vec![
        AsmInstruction::ImmF(HEAP_PTR, HEAP_START),
        AsmInstruction::ImmF(-17, 5),
        AsmInstruction::ImmF(-20, 3),
        AsmInstruction::ImmF(-23, 0),
        AsmInstruction::Jump(9),
        AsmInstruction::Bne(7, -17, -20),
        AsmInstruction::Jump(10),
        AsmInstruction::AddFI(-26, -26, 1),
        AsmInstruction::BneIInc(5, -23, 4),
        AsmInstruction::BneI(5, -23, 4),
    ];
    assert_eq!(mc.instructions, expected);
}

#[test]
fn recompiling_identical_input_is_byte_identical() {
    let make_ops = || {
        vec![
            DslIr::ImmV(Var(0), 5),
            DslIr::For(
                Usize::Const(0),
                Usize::Const(4),
                1,
                Var(1),
                vec![DslIr::AddVI(Var(2), Var(2), 1)],
            ),
        ]
    };
    let mut c1 = fresh();
    c1.build(&make_ops()).unwrap();
    let mc1 = c1.compile().unwrap();
    let mut c2 = fresh();
    c2.build(&make_ops()).unwrap();
    let mc2 = c2.compile().unwrap();
    assert_eq!(mc1.instructions, mc2.instructions);
    assert_eq!(mc1.labels, mc2.labels);
}

#[test]
fn if_else_paths_converge() {
    // if v0 != 7 { f0 <- 1 } else { f0 <- 2 }
    let v0 = Var(0);
    let f0 = Felt(0);
    let ops = vec![
        DslIr::ImmV(v0, 7),
        DslIr::IfNeI(
            v0,
            7,
            vec![DslIr::ImmF(f0, 1)],
            vec![DslIr::ImmF(f0, 2)],
        ),
    ];
    let mut c = fresh();
    c.build(&ops).unwrap();
    let mc = c.compile().unwrap();
    // Blocks: 0 (setup, starts at 0), 1 (then, at 3), 2 (else, at 5),
    // 3 (after, at 6). The branching block ends with a branch to the else
    // block taken when the condition fails (v0 == 7 here), the then path
    // jumps to the after-block, and the else block falls through to it.
    let expected = vec![
        AsmInstruction::ImmF(HEAP_PTR, HEAP_START),
        AsmInstruction::ImmF(-17, 7),
        AsmInstruction::BeqI(5, -17, 7),
        AsmInstruction::ImmF(-18, 1),
        AsmInstruction::Jump(6),
        AsmInstruction::ImmF(-18, 2),
    ];
    assert_eq!(mc.instructions, expected);
}

#[test]
fn nested_break_targets_innermost_loop() {
    // Two nested loops; the break inside the inner loop must jump to the
    // inner after-loop block, never the outer one.
    let outer = Var(0);
    let inner = Var(1);
    let inner_body = vec![DslIr::Break];
    let outer_body = vec![DslIr::For(
        Usize::Const(0),
        Usize::Const(2),
        1,
        inner,
        inner_body,
    )];
    let ops = vec![DslIr::For(Usize::Const(0), Usize::Const(3), 1, outer, outer_body)];
    let mut c = fresh();
    c.build(&ops).unwrap();
    let mc = c.compile().unwrap();
    // Blocks: 0 setup (heap init, outer lv, jump to outer cond at 9);
    // 1 outer body (inner lv setup, jump to inner cond at 7);
    // 2 inner body (the break, rewritten to a jump to the inner after-block
    //   at 8 -- not the outer one at 10 -- then the inner fused inc-branch);
    // 3 inner cond; 4 inner after (holding the outer fused inc-branch);
    // 5 outer cond; 6 outer after (empty).
    // Starts: 0:0, 1:3, 2:5, 3:7, 4:8, 5:9, 6:10.
    let expected = vec![
        AsmInstruction::ImmF(HEAP_PTR, HEAP_START),
        AsmInstruction::ImmF(-17, 0),
        AsmInstruction::Jump(9),
        AsmInstruction::ImmF(-20, 0),
        AsmInstruction::Jump(7),
        AsmInstruction::Jump(8),
        AsmInstruction::BneIInc(5, -20, 2),
        AsmInstruction::BneI(5, -20, 2),
        AsmInstruction::BneIInc(3, -17, 3),
        AsmInstruction::BneI(3, -17, 3),
    ];
    assert_eq!(mc.instructions, expected);
}

#[test]
fn alloc_constant_length_advances_heap_pointer() {
    let ptr = Ptr { address: Var(0) };
    let ops = vec![
        DslIr::Alloc(ptr, Usize::Const(3), 4),
        DslIr::Alloc(Ptr { address: Var(1) }, Usize::Const(5), 2),
    ];
    let mut c = fresh();
    c.build(&ops).unwrap();
    let mc = c.compile().unwrap();
    let expected = vec![
        AsmInstruction::ImmF(HEAP_PTR, HEAP_START),
        AsmInstruction::AddFI(-17, HEAP_PTR, 0),
        AsmInstruction::AddFI(HEAP_PTR, HEAP_PTR, 12),
        AsmInstruction::AddFI(-20, HEAP_PTR, 0),
        AsmInstruction::AddFI(HEAP_PTR, HEAP_PTR, 10),
    ];
    assert_eq!(mc.instructions, expected);
}

#[test]
fn alloc_variable_length_goes_through_scratch() {
    let ptr = Ptr { address: Var(0) };
    let len = Var(1);
    let ops = vec![DslIr::Alloc(ptr, Usize::Var(len), 4)];
    let mut c = fresh();
    c.build(&ops).unwrap();
    let mc = c.compile().unwrap();
    let expected = vec![
        AsmInstruction::ImmF(HEAP_PTR, HEAP_START),
        AsmInstruction::AddFI(-17, HEAP_PTR, 0),
        AsmInstruction::MulFI(A0, -20, 4),
        AsmInstruction::AddF(HEAP_PTR, HEAP_PTR, A0),
    ];
    assert_eq!(mc.instructions, expected);
}

#[test]
fn assertion_compiles_to_guarded_trap() {
    let ops = vec![DslIr::AssertEqV(Var(0), Var(1))];
    let mut c = fresh();
    c.build(&ops).unwrap();
    let mc = c.compile().unwrap();
    // Block 0 (start 0): heap init + branch skipping the trap when equal;
    // block 1 (start 2): trap; block 2 (start 3): continuation.
    let expected = vec![
        AsmInstruction::ImmF(HEAP_PTR, HEAP_START),
        AsmInstruction::Beq(3, -17, -20),
        AsmInstruction::Trap,
    ];
    assert_eq!(mc.instructions, expected);
}

#[test]
fn error_op_emits_trap() {
    let ops = vec![DslIr::Error];
    let mut c = fresh();
    c.build(&ops).unwrap();
    let mc = c.compile().unwrap();
    assert_eq!(
        mc.instructions,
        vec![AsmInstruction::ImmF(HEAP_PTR, HEAP_START), AsmInstruction::Trap]
    );
}

#[test]
fn load_store_resolve_index_forms() {
    let f = Felt(0);
    let p = Ptr { address: Var(0) };
    let iv = Var(1);
    let ops = vec![
        DslIr::LoadF(f, p, MemIndex { index: Usize::Const(2), offset: 1, size: 4 }),
        DslIr::StoreF(p, f, MemIndex { index: Usize::Var(iv), offset: 0, size: 4 }),
    ];
    let mut c = fresh();
    c.build(&ops).unwrap();
    let mc = c.compile().unwrap();
    let expected = vec![
        AsmInstruction::ImmF(HEAP_PTR, HEAP_START),
        AsmInstruction::LoadFI(-18, -17, 2, 1, 4),
        AsmInstruction::StoreF(-17, -18, -20, 0, 4),
    ];
    assert_eq!(mc.instructions, expected);
}

#[test]
fn break_outside_loop_is_refused() {
    let ops = vec![DslIr::Break];
    let mut c = fresh();
    assert_eq!(c.build(&ops), Err(CompileError::BreakOutsideLoop));
}

#[test]
fn break_in_conditional_before_any_loop_is_refused() {
    // A break may only stand inside a loop; in a conditional compiled
    // before any loop exists there is no label for it to resolve to.
    let v0 = Var(0);
    let v1 = Var(1);
    let ops = vec![
        DslIr::ImmV(v0, 5),
        DslIr::ImmV(v1, 3),
        DslIr::IfEq(v0, v1, vec![DslIr::Break], vec![]),
        DslIr::For(
            Usize::Const(0),
            Usize::Const(4),
            1,
            Var(2),
            vec![DslIr::AddVI(Var(3), Var(3), 1)],
        ),
    ];
    let mut c = fresh();
    assert_eq!(c.build(&ops), Err(CompileError::BreakOutsideLoop));
}

#[test]
fn unsupported_operations_are_refused_by_name() {
    let mut c1 = fresh();
    assert_eq!(
        c1.build(&vec![DslIr::Num2BitsF(Array::Fixed(vec![]), Felt(0))]),
        Err(CompileError::Num2Bits)
    );
    let mut c2 = fresh();
    assert_eq!(
        c2.build(&vec![DslIr::ReverseBitsLen(Usize::Const(1), Usize::Const(2), 3)]),
        Err(CompileError::ReverseBitsLen)
    );
    let mut c3 = fresh();
    assert_eq!(
        c3.build(&vec![DslIr::TwoAdicGenerator(Felt(0), Usize::Const(3))]),
        Err(CompileError::TwoAdicGenerator)
    );
    let mut c4 = fresh();
    assert_eq!(
        c4.build(&vec![DslIr::ExpUsizeV(Var(0), Var(1), Usize::Const(2))]),
        Err(CompileError::ExpUsize)
    );
    let mut c5 = fresh();
    assert_eq!(
        c5.build(&vec![DslIr::HintBitsF(Array::Fixed(vec![]), Felt(0))]),
        Err(CompileError::InvalidOperand)
    );
}

#[test]
fn refusal_inside_nested_body_propagates() {
    let ops = vec![DslIr::For(
        Usize::Const(0),
        Usize::Const(2),
        1,
        Var(0),
        vec![DslIr::IfEqI(Var(1), 0, vec![DslIr::Num2BitsV(Array::Fixed(vec![]), Var(2))], vec![])],
    )];
    let mut c = fresh();
    assert_eq!(c.build(&ops), Err(CompileError::Num2Bits));
}

#[test]
fn break_after_loop_is_refused_at_construction() {
    // Once a loop has finished compiling, its break label is no longer
    // active; a break standing after it has no enclosing loop and is a
    // construction-time misuse, named as such.
    let ops = vec![
        DslIr::For(Usize::Const(0), Usize::Const(1), 1, Var(0), vec![]),
        DslIr::Break,
    ];
    let mut c = fresh();
    assert_eq!(c.build(&ops), Err(CompileError::BreakOutsideLoop));
}

#[test]
fn break_in_else_branch_without_enclosing_loop_is_refused() {
    // A loop inside the then-branch does not license a break in the else
    // branch: neither branch is enclosed by a loop.
    let ops = vec![DslIr::IfEqI(
        Var(0),
        0,
        vec![DslIr::For(Usize::Const(0), Usize::Const(1), 1, Var(1), vec![])],
        vec![DslIr::Break],
    )];
    let mut c = fresh();
    assert_eq!(c.build(&ops), Err(CompileError::BreakOutsideLoop));
}

#[test]
fn break_after_inner_loop_resolves_to_outer_after_block() {
    // The inner loop restores the outer loop's break label when it
    // finishes, so a break standing after it in the outer body is accepted
    // and jumps to the outer loop's after-block.
    let outer = Var(0);
    let inner = Var(1);
    let outer_body = vec![
        DslIr::For(Usize::Const(0), Usize::Const(2), 1, inner, vec![]),
        DslIr::Break,
    ];
    let ops = vec![DslIr::For(Usize::Const(0), Usize::Const(2), 1, outer, outer_body)];
    let mut c = fresh();
    c.build(&ops).unwrap();
    let mc = c.compile().unwrap();
    // Blocks: 0 setup (start 0); 1 outer body: inner setup + jump to inner
    // cond (3); 2 inner body: fused inc-branch (5); 3 inner cond (6);
    // 4 inner after: the break -> jump to the OUTER after-block at 10, then
    // the outer fused inc-branch (7); 5 outer cond (9); 6 outer after (10).
    let expected = vec![
        AsmInstruction::ImmF(HEAP_PTR, HEAP_START),
        AsmInstruction::ImmF(-17, 0),
        AsmInstruction::Jump(9),
        AsmInstruction::ImmF(-20, 0),
        AsmInstruction::Jump(6),
        AsmInstruction::BneIInc(5, -20, 2),
        AsmInstruction::BneI(5, -20, 2),
        AsmInstruction::Jump(10),
        AsmInstruction::BneIInc(3, -17, 2),
        AsmInstruction::BneI(3, -17, 2),
    ];
    assert_eq!(mc.instructions, expected);
}

#[test]
fn assembler_refuses_dangling_label_and_unresolved_break() {
    let code = AssemblyCode::new(
        vec![BasicBlock(vec![AsmInstruction::Jump(5)])],
        vec![],
    );
    assert_eq!(code.machine_code().unwrap_err(), AssembleError::DanglingLabel(5));

    let code = AssemblyCode::new(
        vec![BasicBlock(vec![AsmInstruction::Break(0)])],
        vec![],
    );
    assert_eq!(code.machine_code().unwrap_err(), AssembleError::UnresolvedBreak(0));

    let code = AssemblyCode::new(
        vec![BasicBlock(vec![AsmInstruction::Trap])],
        vec![(3, "entry".to_string())],
    );
    assert_eq!(code.machine_code().unwrap_err(), AssembleError::DanglingLabel(3));
}

#[test]
fn frame_addresses_do_not_alias_across_kinds() {
    // Stride three with distinct per-kind offsets: exact expected values.
    assert_eq!(Var(0).fp(), -17);
    assert_eq!(Felt(0).fp(), -18);
    assert_eq!(Ext(0).fp(), -16);
    assert_eq!(Var(1).fp(), -20);
    assert_eq!(Felt(1).fp(), -21);
    assert_eq!(Ext(1).fp(), -19);
    assert_eq!(Ptr { address: Var(2) }.fp(), -23);
    let mut seen = vec![];
    for i in 0..8u32 {
        seen.push(Var(i).fp());
        seen.push(Felt(i).fp());
        seen.push(Ext(i).fp());
    }
    for a in 0..seen.len() {
        for b in (a + 1)..seen.len() {
            assert_ne!(seen[a], seen[b]);
        }
    }
}

#[test]
fn extension_immediates_embed_base_values() {
    assert_eq!(ExtImm::zero(), ExtImm(0, 0, 0, 0));
    assert_eq!(ExtImm::one(), ExtImm(1, 0, 0, 0));
    assert_eq!(ExtImm::from_base(42), ExtImm(42, 0, 0, 0));
    let ops = vec![DslIr::AddEFI(Ext(0), Ext(1), 9)];
    let mut c = fresh();
    c.build(&ops).unwrap();
    let mc = c.compile().unwrap();
    assert_eq!(
        mc.instructions,
        vec![
            AsmInstruction::ImmF(HEAP_PTR, HEAP_START),
            AsmInstruction::AddEI(-16, -19, ExtImm(9, 0, 0, 0)),
        ]
    );
}

#[test]
fn negation_and_inverse_use_immediate_forms() {
    let ops = vec![
        DslIr::NegV(Var(0), Var(1)),
        DslIr::InvF(Felt(0), Felt(1)),
        DslIr::NegE(Ext(0), Ext(1)),
        DslIr::InvE(Ext(2), Ext(3)),
    ];
    let mut c = fresh();
    c.build(&ops).unwrap();
    let mc = c.compile().unwrap();
    let expected = vec![
        AsmInstruction::ImmF(HEAP_PTR, HEAP_START),
        AsmInstruction::SubFIN(-17, 1, -20),
        AsmInstruction::DivFIN(-18, 1, -21),
        AsmInstruction::SubEIN(-16, ExtImm(0, 0, 0, 0), -19),
        AsmInstruction::DivEIN(-22, ExtImm(1, 0, 0, 0), -25),
    ];
    assert_eq!(mc.instructions, expected);
}
