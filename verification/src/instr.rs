//! The flat instruction vocabulary and the basic-block container.
//!
//! Every operand is either a frame-pointer-relative address (`i32`), a
//! canonical scalar immediate (`u32`), an extension-field immediate, or a
//! block label (`u32`). A basic block is an ordered instruction sequence; its
//! index in the program's block list is its label.

use vstd::prelude::*;
use crate::ir::ExtImm;

verus! {

/// The zero address.
pub const ZERO: i32 = 0;

/// The heap pointer address.
pub const HEAP_PTR: i32 = -4;

/// The address of the scratch slot A0.
pub const A0: i32 = -8;

/// Number of memory cells reserved for the stack; the heap begins just past
/// it.
pub const STACK_SIZE: usize = 16777216;

/// The value the heap pointer is initialized to: the first cell past the
/// stack and the reserved header.
pub const HEAP_START: u32 = 16777220;

/// One machine instruction, operating on addresses and immediates.
///
/// Arithmetic is crossed over scalar kinds and operand forms (`F` scalar,
/// `E` extension, trailing `I` an immediate operand, `IN`/`EIN` an immediate
/// in the first position, `FE`/`EIF` a mixed extension-with-scalar operand).
/// Branches compare a cell against a register or an immediate and jump to a
/// block label; `BneInc`/`BneIInc` first increment the compared cell by one.
/// `Break` is an abstract placeholder carrying a loop label, rewritten to a
/// `Jump` once the loop's after-block exists; no finished program contains
/// it.
#[derive(Clone, Copy, Debug, PartialEq, Eq, Structural)]
pub enum AsmInstruction {
    ImmF(i32, u32),
    ImmE(i32, ExtImm),
    AddF(i32, i32, i32),
    AddFI(i32, i32, u32),
    AddE(i32, i32, i32),
    AddEI(i32, i32, ExtImm),
    AddEF(i32, i32, i32),
    AddEIF(i32, i32, ExtImm),
    SubF(i32, i32, i32),
    SubFI(i32, i32, u32),
    SubFIN(i32, u32, i32),
    SubE(i32, i32, i32),
    SubEI(i32, i32, ExtImm),
    SubEIN(i32, ExtImm, i32),
    SubFE(i32, i32, i32),
    MulF(i32, i32, i32),
    MulFI(i32, i32, u32),
    MulE(i32, i32, i32),
    MulEI(i32, i32, ExtImm),
    MulFE(i32, i32, i32),
    DivF(i32, i32, i32),
    DivFI(i32, i32, u32),
    DivFIN(i32, u32, i32),
    DivE(i32, i32, i32),
    DivEI(i32, i32, ExtImm),
    DivEIN(i32, ExtImm, i32),
    DivFE(i32, i32, i32),
    LoadF(i32, i32, i32, u32, u32),
    LoadFI(i32, i32, u32, u32, u32),
    LoadE(i32, i32, i32, u32, u32),
    LoadEI(i32, i32, u32, u32, u32),
    StoreF(i32, i32, i32, u32, u32),
    StoreFI(i32, i32, u32, u32, u32),
    StoreE(i32, i32, i32, u32, u32),
    StoreEI(i32, i32, u32, u32, u32),
    Beq(u32, i32, i32),
    BeqI(u32, i32, u32),
    Bne(u32, i32, i32),
    BneI(u32, i32, u32),
    BeqE(u32, i32, i32),
    BeqEI(u32, i32, ExtImm),
    BneE(u32, i32, i32),
    BneEI(u32, i32, ExtImm),
    BneInc(u32, i32, i32),
    BneIInc(u32, i32, u32),
    Jump(u32),
    Break(u32),
    Trap,
    HintBits(i32, i32),
    HintLen(i32),
    Hint(i32),
    PrintV(i32),
    PrintF(i32),
    PrintE(i32),
    Poseidon2Permute(i32, i32),
    Poseidon2Compress(i32, i32, i32),
    Ext2Felt(i32, i32),
    FriFold(i32, i32),
}

impl AsmInstruction {
    /// The unconditional jump to a block label.
    pub fn j(label: u32) -> (r: AsmInstruction)
        ensures
            r == (AsmInstruction::Jump(label)),
    {
        AsmInstruction::Jump(label)
    }
}

/// A branch comparison operand: a cell address or an immediate, scalar or
/// extension.
#[derive(Clone, Copy, Debug, PartialEq, Eq, Structural)]
pub enum ValueOrConst {
    Val(i32),
    Const(u32),
    ExtVal(i32),
    ExtConst(ExtImm),
}

/// An ordered instruction sequence with control transfer only at its end.
#[derive(Clone, Debug, PartialEq, Eq)]
pub struct BasicBlock(pub Vec<AsmInstruction>);

impl View for BasicBlock {
    type V = Seq<AsmInstruction>;

    open spec fn view(&self) -> Seq<AsmInstruction> {
        self.0@
    }
}

impl BasicBlock {
    /// Creates an empty block.
    pub fn new() -> (r: BasicBlock)
        ensures
            r@ == Seq::<AsmInstruction>::empty(),
    {
        BasicBlock(Vec::new())
    }

    /// Appends one instruction.
    pub fn push(&mut self, instruction: AsmInstruction)
        ensures
            final(self)@ == old(self)@.push(instruction),
    {
        self.0.push(instruction);
    }
}

} // verus!
