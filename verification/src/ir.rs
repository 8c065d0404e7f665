//! The input language: symbolic value handles and the operation vocabulary.
//!
//! A symbolic value is a kind (machine word, base-field element, or
//! extension-field element) together with a per-kind index assigned at its
//! construction site. Its storage address is a pure function of kind and
//! index: a negative frame-pointer-relative offset with a fixed stride of
//! three cells per index and a distinct per-kind base offset, placed below a
//! small reserved header (stack-start marker, heap-pointer cell, one scratch
//! slot). Two distinct (kind, index) pairs never alias.

use vstd::prelude::*;
use crate::field::{FIELD_MODULUS, is_felt};

verus! {

/// Offset below the frame pointer at which value storage starts.
pub const STACK_START_OFFSET: i32 = 16;

/// Largest value index for which the frame-pointer offset fits in `i32`.
pub const MAX_VALUE_INDEX: u32 = 715827876;

/// The kind tag of a symbolic value, used to state the addressing scheme.
pub enum ValueKind {
    Var,
    Felt,
    Ext,
}

/// Per-kind base offset within one three-cell stride.
pub open spec fn kind_offset(kind: ValueKind) -> int {
    match kind {
        ValueKind::Var => 1,
        ValueKind::Felt => 2,
        ValueKind::Ext => 0,
    }
}

/// The frame-pointer-relative address of the value with the given kind and
/// index.
pub open spec fn value_address(kind: ValueKind, idx: int) -> int {
    -(3 * idx + kind_offset(kind) + STACK_START_OFFSET as int)
}

/// Values of distinct kinds never share an address, whatever their indices.
pub proof fn lemma_no_aliasing_across_kinds(k1: ValueKind, k2: ValueKind, i: int, j: int)
    requires
        k1 != k2,
        i >= 0,
        j >= 0,
    ensures
        value_address(k1, i) != value_address(k2, j),
{
    let c1 = kind_offset(k1);
    let c2 = kind_offset(k2);
    assert(c1 != c2);
    assert(3 * i + c1 != 3 * j + c2) by (nonlinear_arith)
        requires
            0 <= c1 < 3,
            0 <= c2 < 3,
            c1 != c2,
    ;
}

/// Within one kind, the addressing is injective: distinct indices get
/// distinct addresses.
pub proof fn lemma_address_injective(kind: ValueKind, i: int, j: int)
    requires
        value_address(kind, i) == value_address(kind, j),
    ensures
        i == j,
{
}

/// Every value address lies strictly below the reserved header cells
/// (the zero address, the heap-pointer cell and the scratch slot).
pub proof fn lemma_address_below_header(kind: ValueKind, i: int)
    requires
        i >= 0,
    ensures
        value_address(kind, i) <= -16,
{
}

/// A machine-word value, indexed by construction site.
#[derive(Clone, Copy, Debug, PartialEq, Eq, Structural)]
pub struct Var(pub u32);

/// A base-field value, indexed by construction site.
#[derive(Clone, Copy, Debug, PartialEq, Eq, Structural)]
pub struct Felt(pub u32);

/// An extension-field value, indexed by construction site.
#[derive(Clone, Copy, Debug, PartialEq, Eq, Structural)]
pub struct Ext(pub u32);

/// A pointer into the heap: a machine word holding an address.
#[derive(Clone, Copy, Debug, PartialEq, Eq, Structural)]
pub struct Ptr {
    pub address: Var,
}

impl Var {
    /// Gets the frame pointer for a var.
    pub fn fp(&self) -> (r: i32)
        requires
            self.0 <= MAX_VALUE_INDEX,
        ensures
            r == value_address(ValueKind::Var, self.0 as int),
    {
        -((self.0 as i32) * 3 + 1 + STACK_START_OFFSET)
    }
}

impl Felt {
    /// Gets the frame pointer for a felt.
    pub fn fp(&self) -> (r: i32)
        requires
            self.0 <= MAX_VALUE_INDEX,
        ensures
            r == value_address(ValueKind::Felt, self.0 as int),
    {
        -((self.0 as i32) * 3 + 2 + STACK_START_OFFSET)
    }
}

impl Ext {
    /// Gets the frame pointer for an extension element.
    pub fn fp(&self) -> (r: i32)
        requires
            self.0 <= MAX_VALUE_INDEX,
        ensures
            r == value_address(ValueKind::Ext, self.0 as int),
    {
        -((self.0 as i32) * 3 + STACK_START_OFFSET)
    }
}

impl Ptr {
    /// Gets the frame pointer for a pointer.
    pub fn fp(&self) -> (r: i32)
        requires
            self.address.0 <= MAX_VALUE_INDEX,
        ensures
            r == value_address(ValueKind::Var, self.address.0 as int),
    {
        self.address.fp()
    }
}

/// An extension-field immediate of fixed degree four, stored as canonical
/// base-field coefficients.
#[derive(Clone, Copy, Debug, PartialEq, Eq, Structural)]
pub struct ExtImm(pub u32, pub u32, pub u32, pub u32);

impl ExtImm {
    /// All four coefficients are canonical field elements.
    pub open spec fn wf(self) -> bool {
        is_felt(self.0) && is_felt(self.1) && is_felt(self.2) && is_felt(self.3)
    }

    /// The zero element of the extension field.
    pub fn zero() -> (r: ExtImm)
        ensures
            r == (ExtImm(0, 0, 0, 0)),
    {
        ExtImm(0, 0, 0, 0)
    }

    /// The one element of the extension field.
    pub fn one() -> (r: ExtImm)
        ensures
            r == (ExtImm(1, 0, 0, 0)),
    {
        ExtImm(1, 0, 0, 0)
    }

    /// Embeds a base-field element into the extension field.
    pub fn from_base(x: u32) -> (r: ExtImm)
        ensures
            r == (ExtImm(x, 0, 0, 0)),
    {
        ExtImm(x, 0, 0, 0)
    }
}

/// A loop bound or allocation length: either a compile-time constant or a
/// machine-word value.
#[derive(Clone, Copy, Debug)]
pub enum Usize {
    Const(usize),
    Var(Var),
}

impl Usize {
    /// Well-formed when a constant is a canonical field element and a
    /// variable's index is addressable.
    pub open spec fn wf(self) -> bool {
        match self {
            Usize::Const(c) => c < FIELD_MODULUS,
            Usize::Var(v) => v.0 <= MAX_VALUE_INDEX,
        }
    }
}

/// An array in the input language: statically unrolled (no heap presence) or
/// dynamic (heap pointer plus length).
#[derive(Clone, Debug)]
pub enum Array<T> {
    Fixed(Vec<T>),
    Dyn(Ptr, Usize),
}

/// An index expression for a memory access, with the element offset and size
/// it addresses.
#[derive(Clone, Copy, Debug)]
pub struct MemIndex {
    pub index: Usize,
    pub offset: u32,
    pub size: u32,
}

impl MemIndex {
    /// Constant index and offset/size fields are canonical field elements;
    /// a variable index is addressable.
    pub open spec fn wf(self) -> bool {
        self.index.wf() && is_felt(self.offset) && is_felt(self.size)
    }
}

/// The resolved operand triple of a memory access: the index as either an
/// immediate or a frame-pointer offset, with the element offset and size.
#[derive(Clone, Copy, Debug)]
pub enum IndexTriple {
    Const(u32, u32, u32),
    Var(i32, u32, u32),
}

impl MemIndex {
    /// Resolves the index expression to instruction operands.
    pub fn fp(&self) -> (r: IndexTriple)
        requires
            self.wf(),
        ensures
            match self.index {
                Usize::Const(c) => r == (IndexTriple::Const(c as u32, self.offset, self.size)),
                Usize::Var(v) => r == (IndexTriple::Var(
                    value_address(ValueKind::Var, v.0 as int) as i32,
                    self.offset,
                    self.size,
                )),
            },
    {
        match self.index {
            Usize::Const(c) => IndexTriple::Const(c as u32, self.offset, self.size),
            Usize::Var(v) => IndexTriple::Var(v.fp(), self.offset, self.size),
        }
    }
}

/// One operation of the input language.
#[derive(Debug)]
pub enum DslIr {
    ImmV(Var, u32),
    ImmF(Felt, u32),
    ImmE(Ext, ExtImm),
    AddV(Var, Var, Var),
    AddVI(Var, Var, u32),
    AddF(Felt, Felt, Felt),
    AddFI(Felt, Felt, u32),
    AddE(Ext, Ext, Ext),
    AddEI(Ext, Ext, ExtImm),
    AddEF(Ext, Ext, Felt),
    AddEFFI(Ext, Felt, ExtImm),
    AddEFI(Ext, Ext, u32),
    SubV(Var, Var, Var),
    SubVI(Var, Var, u32),
    SubVIN(Var, u32, Var),
    SubF(Felt, Felt, Felt),
    SubFI(Felt, Felt, u32),
    SubFIN(Felt, u32, Felt),
    NegV(Var, Var),
    NegF(Felt, Felt),
    DivF(Felt, Felt, Felt),
    DivFI(Felt, Felt, u32),
    DivFIN(Felt, u32, Felt),
    InvV(Var, Var),
    InvF(Felt, Felt),
    DivEF(Ext, Ext, Felt),
    DivEFI(Ext, Ext, u32),
    DivEIN(Ext, ExtImm, Ext),
    DivEFIN(Ext, u32, Ext),
    DivE(Ext, Ext, Ext),
    DivEI(Ext, Ext, ExtImm),
    InvE(Ext, Ext),
    SubEF(Ext, Ext, Felt),
    SubEFI(Ext, Ext, u32),
    SubEIN(Ext, ExtImm, Ext),
    SubE(Ext, Ext, Ext),
    SubEI(Ext, Ext, ExtImm),
    NegE(Ext, Ext),
    MulV(Var, Var, Var),
    MulVI(Var, Var, u32),
    MulF(Felt, Felt, Felt),
    MulFI(Felt, Felt, u32),
    MulE(Ext, Ext, Ext),
    MulEI(Ext, Ext, ExtImm),
    MulEF(Ext, Ext, Felt),
    MulEFI(Ext, Ext, u32),
    IfEq(Var, Var, Vec<DslIr>, Vec<DslIr>),
    IfNe(Var, Var, Vec<DslIr>, Vec<DslIr>),
    IfEqI(Var, u32, Vec<DslIr>, Vec<DslIr>),
    IfNeI(Var, u32, Vec<DslIr>, Vec<DslIr>),
    Break,
    For(Usize, Usize, u32, Var, Vec<DslIr>),
    AssertEqV(Var, Var),
    AssertEqVI(Var, u32),
    AssertNeV(Var, Var),
    AssertNeVI(Var, u32),
    AssertEqF(Felt, Felt),
    AssertEqFI(Felt, u32),
    AssertNeF(Felt, Felt),
    AssertNeFI(Felt, u32),
    AssertEqE(Ext, Ext),
    AssertEqEI(Ext, ExtImm),
    AssertNeE(Ext, Ext),
    AssertNeEI(Ext, ExtImm),
    Alloc(Ptr, Usize, usize),
    LoadV(Var, Ptr, MemIndex),
    LoadF(Felt, Ptr, MemIndex),
    LoadE(Ext, Ptr, MemIndex),
    StoreV(Ptr, Var, MemIndex),
    StoreF(Ptr, Felt, MemIndex),
    StoreE(Ptr, Ext, MemIndex),
    HintBitsU(Array<Var>, Usize),
    HintBitsF(Array<Var>, Felt),
    HintBitsV(Array<Var>, Var),
    Num2BitsF(Array<Var>, Felt),
    Num2BitsV(Array<Var>, Var),
    Poseidon2PermuteBabyBear(Array<Felt>, Array<Felt>),
    ReverseBitsLen(Usize, Usize, usize),
    TwoAdicGenerator(Felt, Usize),
    ExpUsizeV(Var, Var, Usize),
    ExpUsizeF(Felt, Felt, Usize),
    Error,
    PrintF(Felt),
    PrintV(Var),
    PrintE(Ext),
    Ext2Felt(Array<Felt>, Ext),
    HintLen(Var),
    HintVars(Array<Var>),
    HintFelts(Array<Felt>),
    HintExts(Array<Ext>),
    FriFold(Var, Array<Ext>),
    Poseidon2CompressBabyBear(Array<Felt>, Array<Felt>, Array<Felt>),
}

/// The structural size of one operation: one plus the sizes of any nested
/// bodies. Serves as the termination measure of compilation.
pub open spec fn ir_size(op: DslIr) -> nat
    decreases op,
{
    match op {
        DslIr::IfEq(_, _, t, e) => 1 + seq_ir_size(t@) + seq_ir_size(e@),
        DslIr::IfNe(_, _, t, e) => 1 + seq_ir_size(t@) + seq_ir_size(e@),
        DslIr::IfEqI(_, _, t, e) => 1 + seq_ir_size(t@) + seq_ir_size(e@),
        DslIr::IfNeI(_, _, t, e) => 1 + seq_ir_size(t@) + seq_ir_size(e@),
        DslIr::For(_, _, _, _, body) => 1 + seq_ir_size(body@),
        _ => 1,
    }
}

/// The total structural size of an operation sequence.
pub open spec fn seq_ir_size(ops: Seq<DslIr>) -> nat
    decreases ops,
{
    if ops.len() == 0 {
        0
    } else {
        ir_size(ops[0]) + seq_ir_size(ops.drop_first())
    }
}

/// Every operation has positive size.
pub proof fn lemma_ir_size_pos(op: DslIr)
    ensures
        ir_size(op) >= 1,
{
}

/// Peeling one operation off the remainder splits its size off the total.
pub proof fn lemma_seq_ir_size_skip(ops: Seq<DslIr>, i: int)
    requires
        0 <= i < ops.len(),
    ensures
        seq_ir_size(ops.skip(i)) == ir_size(ops[i]) + seq_ir_size(ops.skip(i + 1)),
{
    assert(ops.skip(i).drop_first() =~= ops.skip(i + 1));
    assert(ops.skip(i)[0] == ops[i]);
}

/// A suffix never outweighs the whole sequence.
pub proof fn lemma_seq_ir_size_skip_le(ops: Seq<DslIr>, i: int)
    requires
        0 <= i <= ops.len(),
    ensures
        seq_ir_size(ops.skip(i)) <= seq_ir_size(ops),
    decreases i,
{
    if i == 0 {
        assert(ops.skip(0) =~= ops);
    } else {
        lemma_seq_ir_size_skip_le(ops, i - 1);
        lemma_seq_ir_size_skip(ops, i - 1);
    }
}

/// One element never outweighs the whole sequence.
pub proof fn lemma_seq_ir_size_elem(ops: Seq<DslIr>, i: int)
    requires
        0 <= i < ops.len(),
    ensures
        ir_size(ops[i]) <= seq_ir_size(ops),
{
    lemma_seq_ir_size_skip_le(ops, i);
    lemma_seq_ir_size_skip(ops, i);
}

/// A var handle addresses a representable frame slot.
pub open spec fn var_wf(v: Var) -> bool {
    v.0 <= MAX_VALUE_INDEX
}

/// A felt handle addresses a representable frame slot.
pub open spec fn felt_wf(f: Felt) -> bool {
    f.0 <= MAX_VALUE_INDEX
}

/// An ext handle addresses a representable frame slot.
pub open spec fn ext_wf(e: Ext) -> bool {
    e.0 <= MAX_VALUE_INDEX
}

/// A pointer's address var addresses a representable frame slot.
pub open spec fn ptr_wf(p: Ptr) -> bool {
    var_wf(p.address)
}

/// An array operand is well formed when its dynamic form holds a well formed
/// pointer and length.
pub open spec fn arr_wf<T>(a: Array<T>) -> bool {
    match a {
        Array::Fixed(_) => true,
        Array::Dyn(p, len) => ptr_wf(p) && len.wf(),
    }
}

/// Every handle in the operation addresses a representable slot and every
/// immediate is a canonical field element, recursively through nested
/// bodies.
#[verifier::opaque]
pub open spec fn op_wf(op: DslIr) -> bool
    decreases op,
{
    match op {
        DslIr::ImmV(d, s) => var_wf(d) && is_felt(s),
        DslIr::ImmF(d, s) => felt_wf(d) && is_felt(s),
        DslIr::ImmE(d, s) => ext_wf(d) && s.wf(),
        DslIr::AddV(d, l, r) => var_wf(d) && var_wf(l) && var_wf(r),
        DslIr::AddVI(d, l, r) => var_wf(d) && var_wf(l) && is_felt(r),
        DslIr::AddF(d, l, r) => felt_wf(d) && felt_wf(l) && felt_wf(r),
        DslIr::AddFI(d, l, r) => felt_wf(d) && felt_wf(l) && is_felt(r),
        DslIr::AddE(d, l, r) => ext_wf(d) && ext_wf(l) && ext_wf(r),
        DslIr::AddEI(d, l, r) => ext_wf(d) && ext_wf(l) && r.wf(),
        DslIr::AddEF(d, l, r) => ext_wf(d) && ext_wf(l) && felt_wf(r),
        DslIr::AddEFFI(d, l, r) => ext_wf(d) && felt_wf(l) && r.wf(),
        DslIr::AddEFI(d, l, r) => ext_wf(d) && ext_wf(l) && is_felt(r),
        DslIr::SubV(d, l, r) => var_wf(d) && var_wf(l) && var_wf(r),
        DslIr::SubVI(d, l, r) => var_wf(d) && var_wf(l) && is_felt(r),
        DslIr::SubVIN(d, l, r) => var_wf(d) && is_felt(l) && var_wf(r),
        DslIr::SubF(d, l, r) => felt_wf(d) && felt_wf(l) && felt_wf(r),
        DslIr::SubFI(d, l, r) => felt_wf(d) && felt_wf(l) && is_felt(r),
        DslIr::SubFIN(d, l, r) => felt_wf(d) && is_felt(l) && felt_wf(r),
        DslIr::NegV(d, s) => var_wf(d) && var_wf(s),
        DslIr::NegF(d, s) => felt_wf(d) && felt_wf(s),
        DslIr::DivF(d, l, r) => felt_wf(d) && felt_wf(l) && felt_wf(r),
        DslIr::DivFI(d, l, r) => felt_wf(d) && felt_wf(l) && is_felt(r),
        DslIr::DivFIN(d, l, r) => felt_wf(d) && is_felt(l) && felt_wf(r),
        DslIr::InvV(d, s) => var_wf(d) && var_wf(s),
        DslIr::InvF(d, s) => felt_wf(d) && felt_wf(s),
        DslIr::DivEF(d, l, r) => ext_wf(d) && ext_wf(l) && felt_wf(r),
        DslIr::DivEFI(d, l, r) => ext_wf(d) && ext_wf(l) && is_felt(r),
        DslIr::DivEIN(d, l, r) => ext_wf(d) && l.wf() && ext_wf(r),
        DslIr::DivEFIN(d, l, r) => ext_wf(d) && is_felt(l) && ext_wf(r),
        DslIr::DivE(d, l, r) => ext_wf(d) && ext_wf(l) && ext_wf(r),
        DslIr::DivEI(d, l, r) => ext_wf(d) && ext_wf(l) && r.wf(),
        DslIr::InvE(d, s) => ext_wf(d) && ext_wf(s),
        DslIr::SubEF(d, l, r) => ext_wf(d) && ext_wf(l) && felt_wf(r),
        DslIr::SubEFI(d, l, r) => ext_wf(d) && ext_wf(l) && is_felt(r),
        DslIr::SubEIN(d, l, r) => ext_wf(d) && l.wf() && ext_wf(r),
        DslIr::SubE(d, l, r) => ext_wf(d) && ext_wf(l) && ext_wf(r),
        DslIr::SubEI(d, l, r) => ext_wf(d) && ext_wf(l) && r.wf(),
        DslIr::NegE(d, s) => ext_wf(d) && ext_wf(s),
        DslIr::MulV(d, l, r) => var_wf(d) && var_wf(l) && var_wf(r),
        DslIr::MulVI(d, l, r) => var_wf(d) && var_wf(l) && is_felt(r),
        DslIr::MulF(d, l, r) => felt_wf(d) && felt_wf(l) && felt_wf(r),
        DslIr::MulFI(d, l, r) => felt_wf(d) && felt_wf(l) && is_felt(r),
        DslIr::MulE(d, l, r) => ext_wf(d) && ext_wf(l) && ext_wf(r),
        DslIr::MulEI(d, l, r) => ext_wf(d) && ext_wf(l) && r.wf(),
        DslIr::MulEF(d, l, r) => ext_wf(d) && ext_wf(l) && felt_wf(r),
        DslIr::MulEFI(d, l, r) => ext_wf(d) && ext_wf(l) && is_felt(r),
        DslIr::IfEq(l, r, t, e) => var_wf(l) && var_wf(r) && seq_wf(t@) && seq_wf(e@),
        DslIr::IfNe(l, r, t, e) => var_wf(l) && var_wf(r) && seq_wf(t@) && seq_wf(e@),
        DslIr::IfEqI(l, r, t, e) => var_wf(l) && is_felt(r) && seq_wf(t@) && seq_wf(e@),
        DslIr::IfNeI(l, r, t, e) => var_wf(l) && is_felt(r) && seq_wf(t@) && seq_wf(e@),
        DslIr::Break => true,
        DslIr::For(start, end, step, lv, body) => start.wf() && end.wf() && is_felt(step)
            && var_wf(lv) && seq_wf(body@),
        DslIr::AssertEqV(l, r) => var_wf(l) && var_wf(r),
        DslIr::AssertEqVI(l, r) => var_wf(l) && is_felt(r),
        DslIr::AssertNeV(l, r) => var_wf(l) && var_wf(r),
        DslIr::AssertNeVI(l, r) => var_wf(l) && is_felt(r),
        DslIr::AssertEqF(l, r) => felt_wf(l) && felt_wf(r),
        DslIr::AssertEqFI(l, r) => felt_wf(l) && is_felt(r),
        DslIr::AssertNeF(l, r) => felt_wf(l) && felt_wf(r),
        DslIr::AssertNeFI(l, r) => felt_wf(l) && is_felt(r),
        DslIr::AssertEqE(l, r) => ext_wf(l) && ext_wf(r),
        DslIr::AssertEqEI(l, r) => ext_wf(l) && r.wf(),
        DslIr::AssertNeE(l, r) => ext_wf(l) && ext_wf(r),
        DslIr::AssertNeEI(l, r) => ext_wf(l) && r.wf(),
        DslIr::Alloc(p, len, size) => ptr_wf(p) && len.wf() && size < FIELD_MODULUS,
        DslIr::LoadV(v, p, idx) => var_wf(v) && ptr_wf(p) && idx.wf(),
        DslIr::LoadF(f, p, idx) => felt_wf(f) && ptr_wf(p) && idx.wf(),
        DslIr::LoadE(e, p, idx) => ext_wf(e) && ptr_wf(p) && idx.wf(),
        DslIr::StoreV(p, v, idx) => ptr_wf(p) && var_wf(v) && idx.wf(),
        DslIr::StoreF(p, f, idx) => ptr_wf(p) && felt_wf(f) && idx.wf(),
        DslIr::StoreE(p, e, idx) => ptr_wf(p) && ext_wf(e) && idx.wf(),
        DslIr::HintBitsU(d, s) => arr_wf(d) && s.wf(),
        DslIr::HintBitsF(d, s) => arr_wf(d) && felt_wf(s),
        DslIr::HintBitsV(d, s) => arr_wf(d) && var_wf(s),
        DslIr::Num2BitsF(_, _) => true,
        DslIr::Num2BitsV(_, _) => true,
        DslIr::Poseidon2PermuteBabyBear(d, s) => arr_wf(d) && arr_wf(s),
        DslIr::ReverseBitsLen(_, _, _) => true,
        DslIr::TwoAdicGenerator(_, _) => true,
        DslIr::ExpUsizeV(_, _, _) => true,
        DslIr::ExpUsizeF(_, _, _) => true,
        DslIr::Error => true,
        DslIr::PrintF(f) => felt_wf(f),
        DslIr::PrintV(v) => var_wf(v),
        DslIr::PrintE(e) => ext_wf(e),
        DslIr::Ext2Felt(d, s) => arr_wf(d) && ext_wf(s),
        DslIr::HintLen(v) => var_wf(v),
        DslIr::HintVars(d) => arr_wf(d),
        DslIr::HintFelts(d) => arr_wf(d),
        DslIr::HintExts(d) => arr_wf(d),
        DslIr::FriFold(m, a) => var_wf(m) && arr_wf(a),
        DslIr::Poseidon2CompressBabyBear(a, b, c) => arr_wf(a) && arr_wf(b) && arr_wf(c),
    }
}

/// Every operation of the sequence is well formed.
pub open spec fn seq_wf(ops: Seq<DslIr>) -> bool
    decreases ops,
{
    forall|i: int| 0 <= i < ops.len() ==> op_wf(#[trigger] ops[i])
}

} // verus!
