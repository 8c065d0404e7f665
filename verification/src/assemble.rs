//! The assembler: resolves block-relative labels into a flat,
//! address-linear program.
//!
//! A finished block list is turned into one instruction sequence by laying
//! the blocks out in order; every branch or jump operand, which named a
//! block label, is replaced by the flat address of that block's first
//! instruction, and the function-name table is converted to name-to-address
//! pairs. A label outside the block list, or an abstract break that no loop
//! resolved, is a construction-time error naming the offender; no partial
//! artifact is produced.

use vstd::prelude::*;
use crate::field::FIELD_MODULUS;
use crate::instr::{AsmInstruction, BasicBlock};

verus! {

/// An internal-consistency failure found while assembling.
#[derive(Clone, Copy, Debug, PartialEq, Eq, Structural)]
pub enum AssembleError {
    /// A branch or jump names a block label outside the block list.
    DanglingLabel(u32),
    /// An abstract break, carrying its loop label, was never resolved.
    UnresolvedBreak(u32),
}

/// The flat address of the first instruction of block `b`: the total length
/// of the blocks before it.
pub open spec fn block_start(blocks: Seq<Seq<AsmInstruction>>, b: int) -> int
    decreases b,
{
    if b <= 0 {
        0
    } else {
        block_start(blocks, b - 1) + blocks[b - 1].len()
    }
}

/// The length of the whole flat program.
pub open spec fn flat_len(blocks: Seq<Seq<AsmInstruction>>) -> int {
    block_start(blocks, blocks.len() as int)
}

/// Block starts are monotone in the block index.
pub proof fn lemma_block_start_monotone(blocks: Seq<Seq<AsmInstruction>>, b1: int, b2: int)
    requires
        0 <= b1 <= b2,
    ensures
        block_start(blocks, b1) <= block_start(blocks, b2),
    decreases b2 - b1,
{
    if b1 < b2 {
        lemma_block_start_monotone(blocks, b1, b2 - 1);
    }
}

/// The consistency issue an instruction raises against a block list of the
/// given length, if any.
pub open spec fn instr_issue(i: AsmInstruction, nblocks: int) -> Option<AssembleError> {
    match i {
        AsmInstruction::Beq(l, _, _) => if (l as int) < nblocks {
            None
        } else {
            Some(AssembleError::DanglingLabel(l))
        },
        AsmInstruction::BeqI(l, _, _) => if (l as int) < nblocks {
            None
        } else {
            Some(AssembleError::DanglingLabel(l))
        },
        AsmInstruction::Bne(l, _, _) => if (l as int) < nblocks {
            None
        } else {
            Some(AssembleError::DanglingLabel(l))
        },
        AsmInstruction::BneI(l, _, _) => if (l as int) < nblocks {
            None
        } else {
            Some(AssembleError::DanglingLabel(l))
        },
        AsmInstruction::BeqE(l, _, _) => if (l as int) < nblocks {
            None
        } else {
            Some(AssembleError::DanglingLabel(l))
        },
        AsmInstruction::BeqEI(l, _, _) => if (l as int) < nblocks {
            None
        } else {
            Some(AssembleError::DanglingLabel(l))
        },
        AsmInstruction::BneE(l, _, _) => if (l as int) < nblocks {
            None
        } else {
            Some(AssembleError::DanglingLabel(l))
        },
        AsmInstruction::BneEI(l, _, _) => if (l as int) < nblocks {
            None
        } else {
            Some(AssembleError::DanglingLabel(l))
        },
        AsmInstruction::BneInc(l, _, _) => if (l as int) < nblocks {
            None
        } else {
            Some(AssembleError::DanglingLabel(l))
        },
        AsmInstruction::BneIInc(l, _, _) => if (l as int) < nblocks {
            None
        } else {
            Some(AssembleError::DanglingLabel(l))
        },
        AsmInstruction::Jump(l) => if (l as int) < nblocks {
            None
        } else {
            Some(AssembleError::DanglingLabel(l))
        },
        AsmInstruction::Break(l) => Some(AssembleError::UnresolvedBreak(l)),
        _ => None,
    }
}

/// The instruction with its block label replaced by that block's flat
/// address.
pub open spec fn resolve_instr(i: AsmInstruction, blocks: Seq<Seq<AsmInstruction>>)
    -> AsmInstruction {
    match i {
        AsmInstruction::Beq(l, a, b) => AsmInstruction::Beq(
            block_start(blocks, l as int) as u32,
            a,
            b,
        ),
        AsmInstruction::BeqI(l, a, b) => AsmInstruction::BeqI(
            block_start(blocks, l as int) as u32,
            a,
            b,
        ),
        AsmInstruction::Bne(l, a, b) => AsmInstruction::Bne(
            block_start(blocks, l as int) as u32,
            a,
            b,
        ),
        AsmInstruction::BneI(l, a, b) => AsmInstruction::BneI(
            block_start(blocks, l as int) as u32,
            a,
            b,
        ),
        AsmInstruction::BeqE(l, a, b) => AsmInstruction::BeqE(
            block_start(blocks, l as int) as u32,
            a,
            b,
        ),
        AsmInstruction::BeqEI(l, a, b) => AsmInstruction::BeqEI(
            block_start(blocks, l as int) as u32,
            a,
            b,
        ),
        AsmInstruction::BneE(l, a, b) => AsmInstruction::BneE(
            block_start(blocks, l as int) as u32,
            a,
            b,
        ),
        AsmInstruction::BneEI(l, a, b) => AsmInstruction::BneEI(
            block_start(blocks, l as int) as u32,
            a,
            b,
        ),
        AsmInstruction::BneInc(l, a, b) => AsmInstruction::BneInc(
            block_start(blocks, l as int) as u32,
            a,
            b,
        ),
        AsmInstruction::BneIInc(l, a, b) => AsmInstruction::BneIInc(
            block_start(blocks, l as int) as u32,
            a,
            b,
        ),
        AsmInstruction::Jump(l) => AsmInstruction::Jump(block_start(blocks, l as int) as u32),
        _ => i,
    }
}

/// One block, fully resolved.
pub open spec fn resolve_block(b: Seq<AsmInstruction>, blocks: Seq<Seq<AsmInstruction>>)
    -> Seq<AsmInstruction> {
    Seq::new(b.len(), |k: int| resolve_instr(b[k], blocks))
}

/// The first issue within one block, scanning in order.
pub open spec fn block_issue(b: Seq<AsmInstruction>, nblocks: int) -> Option<AssembleError>
    decreases b.len(),
{
    if b.len() == 0 {
        None
    } else {
        match instr_issue(b[0], nblocks) {
            Some(err) => Some(err),
            None => block_issue(b.drop_first(), nblocks),
        }
    }
}

/// The first issue within the first `upto` blocks, scanning in order.
pub open spec fn blocks_issue(blocks: Seq<Seq<AsmInstruction>>, upto: int)
    -> Option<AssembleError>
    decreases upto,
{
    if upto <= 0 {
        None
    } else {
        match blocks_issue(blocks, upto - 1) {
            Some(err) => Some(err),
            None => block_issue(blocks[upto - 1], blocks.len() as int),
        }
    }
}

/// The first issue in the function-label table: a name bound to a label
/// outside the block list.
pub open spec fn labels_issue(labels: Seq<(u32, Seq<char>)>, nblocks: int, upto: int)
    -> Option<AssembleError>
    decreases upto,
{
    if upto <= 0 {
        None
    } else {
        match labels_issue(labels, nblocks, upto - 1) {
            Some(err) => Some(err),
            None => if (labels[upto - 1].0 as int) < nblocks {
                None
            } else {
                Some(AssembleError::DanglingLabel(labels[upto - 1].0))
            },
        }
    }
}

/// The first issue anywhere in the code: blocks first, then the label
/// table.
pub open spec fn code_issue(blocks: Seq<Seq<AsmInstruction>>, labels: Seq<(u32, Seq<char>)>)
    -> Option<AssembleError> {
    match blocks_issue(blocks, blocks.len() as int) {
        Some(err) => Some(err),
        None => labels_issue(labels, blocks.len() as int, labels.len() as int),
    }
}

/// The flat program of the first `upto` blocks, each resolved.
pub open spec fn flat_resolved(blocks: Seq<Seq<AsmInstruction>>, upto: int)
    -> Seq<AsmInstruction>
    decreases upto,
{
    if upto <= 0 {
        Seq::empty()
    } else {
        flat_resolved(blocks, upto - 1) + resolve_block(blocks[upto - 1], blocks)
    }
}

/// The resolved name-to-address table.
pub open spec fn resolved_labels(
    labels: Seq<(u32, Seq<char>)>,
    blocks: Seq<Seq<AsmInstruction>>,
) -> Seq<(Seq<char>, u32)> {
    labels.map_values(|p: (u32, Seq<char>)| (p.1, block_start(blocks, p.0 as int) as u32))
}

/// Assembly code: the finished block list with its function-name table.
#[derive(Clone, Debug)]
pub struct AssemblyCode {
    blocks: Vec<BasicBlock>,
    labels: Vec<(u32, String)>,
}

/// The mathematical content of assembly code.
pub struct AssemblyCodeView {
    pub blocks: Seq<Seq<AsmInstruction>>,
    pub labels: Seq<(u32, Seq<char>)>,
}

impl View for AssemblyCode {
    type V = AssemblyCodeView;

    closed spec fn view(&self) -> AssemblyCodeView {
        AssemblyCodeView {
            blocks: self.blocks@.map_values(|b: BasicBlock| b@),
            labels: self.labels@.map_values(|p: (u32, String)| (p.0, p.1@)),
        }
    }
}

/// The assembled artifact: a flat, address-resolved instruction list and
/// the name-to-address table of the entry points. The sole interface the
/// downstream interpreter consumes.
#[derive(Clone, Debug)]
pub struct MachineCode {
    pub instructions: Vec<AsmInstruction>,
    pub labels: Vec<(String, u32)>,
}

/// A block whose instructions each pass the consistency check scans clean.
pub proof fn lemma_block_issue_none(b: Seq<AsmInstruction>, nblocks: int)
    requires
        forall|k: int| 0 <= k < b.len() ==> instr_issue(#[trigger] b[k], nblocks) is None,
    ensures
        block_issue(b, nblocks) is None,
    decreases b.len(),
{
    if b.len() > 0 {
        assert(instr_issue(b[0], nblocks) is None);
        assert forall|k: int|
            0 <= k < b.drop_first().len() implies instr_issue(
            #[trigger] b.drop_first()[k],
            nblocks,
        ) is None by {
            assert(b.drop_first()[k] == b[k + 1]);
        }
        lemma_block_issue_none(b.drop_first(), nblocks);
    }
}

/// A block list whose instructions each pass the consistency check scans
/// clean.
pub proof fn lemma_blocks_issue_none(blocks: Seq<Seq<AsmInstruction>>, upto: int)
    requires
        0 <= upto <= blocks.len(),
        forall|b: int, k: int|
            0 <= b < blocks.len() && 0 <= k < blocks[b].len() ==> instr_issue(
                #[trigger] blocks[b][k],
                blocks.len() as int,
            ) is None,
    ensures
        blocks_issue(blocks, upto) is None,
    decreases upto,
{
    if upto > 0 {
        lemma_blocks_issue_none(blocks, upto - 1);
        lemma_block_issue_none(blocks[upto - 1], blocks.len() as int);
    }
}

/// Once an issue is found in a block, every longer scan reports it.
proof fn lemma_blocks_issue_propagate(
    blocks: Seq<Seq<AsmInstruction>>,
    bi: int,
    upto: int,
    e: AssembleError,
)
    requires
        0 <= bi < upto <= blocks.len(),
        blocks_issue(blocks, bi) is None,
        block_issue(blocks[bi], blocks.len() as int) == Some(e),
    ensures
        blocks_issue(blocks, upto) == Some(e),
    decreases upto,
{
    if upto > bi + 1 {
        lemma_blocks_issue_propagate(blocks, bi, upto - 1, e);
    }
}

/// Once an issue is found in the label table, every longer scan reports it.
proof fn lemma_labels_issue_propagate(
    labels: Seq<(u32, Seq<char>)>,
    nblocks: int,
    li: int,
    upto: int,
    e: AssembleError,
)
    requires
        0 <= li < upto <= labels.len(),
        labels_issue(labels, nblocks, li) is None,
        (labels[li].0 as int) >= nblocks,
        e == AssembleError::DanglingLabel(labels[li].0),
    ensures
        labels_issue(labels, nblocks, upto) == Some(e),
    decreases upto,
{
    if upto > li + 1 {
        lemma_labels_issue_propagate(labels, nblocks, li, upto - 1, e);
    }
}

impl AssemblyCode {
    /// Packs a block list and a label table.
    pub fn new(blocks: Vec<BasicBlock>, labels: Vec<(u32, String)>) -> (r: AssemblyCode)
        ensures
            r@.blocks == blocks@.map_values(|b: BasicBlock| b@),
            r@.labels == labels@.map_values(|p: (u32, String)| (p.0, p.1@)),
    {
        AssemblyCode { blocks, labels }
    }

    /// Assembles the blocks into the flat machine program.
    ///
    /// Computes cumulative block lengths, replaces every block label by the
    /// flat address of the block's first instruction, and resolves the
    /// function-name table; the first dangling label or unresolved break
    /// found aborts the assembly, naming it.
    #[verifier::rlimit(100)]
    #[verifier::spinoff_prover]
    pub fn machine_code(self) -> (r: Result<MachineCode, AssembleError>)
        requires
            flat_len(self@.blocks) <= FIELD_MODULUS as int,
        ensures
            r is Ok <==> code_issue(self@.blocks, self@.labels) is None,
            r matches Ok(mc) ==> mc.instructions@ == flat_resolved(
                self@.blocks,
                self@.blocks.len() as int,
            ) && mc.labels@.map_values(|p: (String, u32)| (p.0@, p.1)) == resolved_labels(
                self@.labels,
                self@.blocks,
            ),
            r matches Err(e) ==> Some(e) == code_issue(self@.blocks, self@.labels),
    {
        let nblocks = self.blocks.len();
        let mut starts: Vec<u32> = Vec::new();
        let mut sum: u32 = 0;
        let mut b: usize = 0;
        while b < nblocks
            invariant
                nblocks == self.blocks@.len(),
                flat_len(self@.blocks) <= FIELD_MODULUS as int,
                b <= nblocks,
                starts@.len() == b,
                sum as int == block_start(self@.blocks, b as int),
                forall|j: int| 0 <= j < b ==> #[trigger] starts@[j] as int == block_start(
                    self@.blocks,
                    j,
                ),
            decreases nblocks - b,
        {
            starts.push(sum);
            let blen = self.blocks[b].0.len();
            proof {
                assert(self@.blocks[b as int].len() == blen);
                lemma_block_start_monotone(
                    self@.blocks,
                    b as int + 1,
                    self@.blocks.len() as int,
                );
                assert(block_start(self@.blocks, b as int + 1) == sum + blen);
            }
            sum = sum + (blen as u32);
            b += 1;
        }
        let ghost gstarts = starts@;
        let mut instructions: Vec<AsmInstruction> = Vec::new();
        let mut bi: usize = 0;
        while bi < nblocks
            invariant
                nblocks == self.blocks@.len(),
                starts@ == gstarts,
                starts@.len() == nblocks,
                forall|j: int| 0 <= j < nblocks ==> #[trigger] starts@[j] as int == block_start(
                    self@.blocks,
                    j,
                ),
                bi <= nblocks,
                instructions@ == flat_resolved(self@.blocks, bi as int),
                blocks_issue(self@.blocks, bi as int) is None,
            decreases nblocks - bi,
        {
            let ghost cur = self@.blocks[bi as int];
            let blen = self.blocks[bi].0.len();
            proof {
                assert(cur.skip(0) =~= cur);
                assert(resolve_block(cur, self@.blocks).take(0) =~= Seq::<AsmInstruction>::empty());
            }
            let mut k: usize = 0;
            while k < blen
                invariant
                    nblocks == self.blocks@.len(),
                    starts@ == gstarts,
                    starts@.len() == nblocks,
                    forall|j: int| 0 <= j < nblocks ==> #[trigger] starts@[j] as int
                        == block_start(self@.blocks, j),
                    bi < nblocks,
                    cur == self@.blocks[bi as int],
                    blen == cur.len(),
                    k <= blen,
                    blocks_issue(self@.blocks, bi as int) is None,
                    block_issue(cur.skip(k as int), nblocks as int) == block_issue(
                        cur,
                        nblocks as int,
                    ),
                    instructions@ == flat_resolved(self@.blocks, bi as int) + resolve_block(
                        cur,
                        self@.blocks,
                    ).take(k as int),
                decreases blen - k,
            {
                proof {
                    assert(cur.skip(k as int)[0] == cur[k as int]);
                    assert(cur.skip(k as int).drop_first() =~= cur.skip(k as int + 1));
                }
                let ins = self.blocks[bi].0[k];
                let resolved: AsmInstruction = match ins {
                    AsmInstruction::Beq(l, x, y) => {
                        if (l as usize) < nblocks {
                            AsmInstruction::Beq(starts[l as usize], x, y)
                        } else {
                            proof {
                                lemma_blocks_issue_propagate(
                                    self@.blocks,
                                    bi as int,
                                    nblocks as int,
                                    AssembleError::DanglingLabel(l),
                                );
                            }
                            return Err(AssembleError::DanglingLabel(l));
                        }
                    },
                    AsmInstruction::BeqI(l, x, y) => {
                        if (l as usize) < nblocks {
                            AsmInstruction::BeqI(starts[l as usize], x, y)
                        } else {
                            proof {
                                lemma_blocks_issue_propagate(
                                    self@.blocks,
                                    bi as int,
                                    nblocks as int,
                                    AssembleError::DanglingLabel(l),
                                );
                            }
                            return Err(AssembleError::DanglingLabel(l));
                        }
                    },
                    AsmInstruction::Bne(l, x, y) => {
                        if (l as usize) < nblocks {
                            AsmInstruction::Bne(starts[l as usize], x, y)
                        } else {
                            proof {
                                lemma_blocks_issue_propagate(
                                    self@.blocks,
                                    bi as int,
                                    nblocks as int,
                                    AssembleError::DanglingLabel(l),
                                );
                            }
                            return Err(AssembleError::DanglingLabel(l));
                        }
                    },
                    AsmInstruction::BneI(l, x, y) => {
                        if (l as usize) < nblocks {
                            AsmInstruction::BneI(starts[l as usize], x, y)
                        } else {
                            proof {
                                lemma_blocks_issue_propagate(
                                    self@.blocks,
                                    bi as int,
                                    nblocks as int,
                                    AssembleError::DanglingLabel(l),
                                );
                            }
                            return Err(AssembleError::DanglingLabel(l));
                        }
                    },
                    AsmInstruction::BeqE(l, x, y) => {
                        if (l as usize) < nblocks {
                            AsmInstruction::BeqE(starts[l as usize], x, y)
                        } else {
                            proof {
                                lemma_blocks_issue_propagate(
                                    self@.blocks,
                                    bi as int,
                                    nblocks as int,
                                    AssembleError::DanglingLabel(l),
                                );
                            }
                            return Err(AssembleError::DanglingLabel(l));
                        }
                    },
                    AsmInstruction::BeqEI(l, x, y) => {
                        if (l as usize) < nblocks {
                            AsmInstruction::BeqEI(starts[l as usize], x, y)
                        } else {
                            proof {
                                lemma_blocks_issue_propagate(
                                    self@.blocks,
                                    bi as int,
                                    nblocks as int,
                                    AssembleError::DanglingLabel(l),
                                );
                            }
                            return Err(AssembleError::DanglingLabel(l));
                        }
                    },
                    AsmInstruction::BneE(l, x, y) => {
                        if (l as usize) < nblocks {
                            AsmInstruction::BneE(starts[l as usize], x, y)
                        } else {
                            proof {
                                lemma_blocks_issue_propagate(
                                    self@.blocks,
                                    bi as int,
                                    nblocks as int,
                                    AssembleError::DanglingLabel(l),
                                );
                            }
                            return Err(AssembleError::DanglingLabel(l));
                        }
                    },
                    AsmInstruction::BneEI(l, x, y) => {
                        if (l as usize) < nblocks {
                            AsmInstruction::BneEI(starts[l as usize], x, y)
                        } else {
                            proof {
                                lemma_blocks_issue_propagate(
                                    self@.blocks,
                                    bi as int,
                                    nblocks as int,
                                    AssembleError::DanglingLabel(l),
                                );
                            }
                            return Err(AssembleError::DanglingLabel(l));
                        }
                    },
                    AsmInstruction::BneInc(l, x, y) => {
                        if (l as usize) < nblocks {
                            AsmInstruction::BneInc(starts[l as usize], x, y)
                        } else {
                            proof {
                                lemma_blocks_issue_propagate(
                                    self@.blocks,
                                    bi as int,
                                    nblocks as int,
                                    AssembleError::DanglingLabel(l),
                                );
                            }
                            return Err(AssembleError::DanglingLabel(l));
                        }
                    },
                    AsmInstruction::BneIInc(l, x, y) => {
                        if (l as usize) < nblocks {
                            AsmInstruction::BneIInc(starts[l as usize], x, y)
                        } else {
                            proof {
                                lemma_blocks_issue_propagate(
                                    self@.blocks,
                                    bi as int,
                                    nblocks as int,
                                    AssembleError::DanglingLabel(l),
                                );
                            }
                            return Err(AssembleError::DanglingLabel(l));
                        }
                    },
                    AsmInstruction::Jump(l) => {
                        if (l as usize) < nblocks {
                            AsmInstruction::Jump(starts[l as usize])
                        } else {
                            proof {
                                lemma_blocks_issue_propagate(
                                    self@.blocks,
                                    bi as int,
                                    nblocks as int,
                                    AssembleError::DanglingLabel(l),
                                );
                            }
                            return Err(AssembleError::DanglingLabel(l));
                        }
                    },
                    AsmInstruction::Break(l) => {
                        proof {
                            lemma_blocks_issue_propagate(
                                self@.blocks,
                                bi as int,
                                nblocks as int,
                                AssembleError::UnresolvedBreak(l),
                            );
                        }
                        return Err(AssembleError::UnresolvedBreak(l));
                    },
                    other => other,
                };
                instructions.push(resolved);
                proof {
                    assert(resolved == resolve_instr(cur[k as int], self@.blocks));
                    assert(resolve_block(cur, self@.blocks).take(k as int + 1) =~= resolve_block(
                        cur,
                        self@.blocks,
                    ).take(k as int).push(resolve_instr(cur[k as int], self@.blocks)));
                    assert(instructions@ == flat_resolved(self@.blocks, bi as int)
                        + resolve_block(cur, self@.blocks).take(k as int + 1));
                }
                k += 1;
            }
            proof {
                assert(cur.skip(blen as int) =~= Seq::<AsmInstruction>::empty());
                assert(block_issue(cur, nblocks as int) is None);
                assert(resolve_block(cur, self@.blocks).take(blen as int) =~= resolve_block(
                    cur,
                    self@.blocks,
                ));
                assert(instructions@ == flat_resolved(self@.blocks, bi as int + 1));
            }
            bi += 1;
        }
        let nlabels = self.labels.len();
        let mut labels: Vec<(String, u32)> = Vec::new();
        let mut li: usize = 0;
        while li < nlabels
            invariant
                nblocks == self.blocks@.len(),
                nlabels == self.labels@.len(),
                starts@ == gstarts,
                starts@.len() == nblocks,
                forall|j: int| 0 <= j < nblocks ==> #[trigger] starts@[j] as int == block_start(
                    self@.blocks,
                    j,
                ),
                li <= nlabels,
                blocks_issue(self@.blocks, nblocks as int) is None,
                instructions@ == flat_resolved(self@.blocks, nblocks as int),
                labels_issue(self@.labels, nblocks as int, li as int) is None,
                labels@.len() == li as int,
                forall|j: int|
                    0 <= j < li ==> (#[trigger] labels@[j]).0@ == self@.labels[j].1
                        && labels@[j].1 as int == block_start(
                        self@.blocks,
                        self@.labels[j].0 as int,
                    ),
            decreases nlabels - li,
        {
            let lbl = self.labels[li].0;
            if (lbl as usize) >= nblocks {
                proof {
                    lemma_labels_issue_propagate(
                        self@.labels,
                        nblocks as int,
                        li as int,
                        nlabels as int,
                        AssembleError::DanglingLabel(lbl),
                    );
                }
                return Err(AssembleError::DanglingLabel(lbl));
            }
            let name = self.labels[li].1.clone();
            let ghost name_v = name@;
            labels.push((name, starts[lbl as usize]));
            proof {
                assert(name_v == self@.labels[li as int].1);
                assert(gstarts[lbl as int] as int == block_start(self@.blocks, lbl as int));
            }
            li += 1;
        }
        proof {
            assert(labels@.map_values(|p: (String, u32)| (p.0@, p.1)) =~= resolved_labels(
                self@.labels,
                self@.blocks,
            ));
        }
        Ok(MachineCode { instructions, labels })
    }
}

} // verus!
