//! The backend program that lowering produces: functions made of blocks of
//! instructions, each block closed by one terminator.

use vstd::prelude::*;
use crate::abi::AbiSignature;
use crate::ir::{ConstId, FuncId, TypeId};
use crate::layout::LowType;
use crate::ops::{ArithOp, CastOp, IntPred, RealPred};

verus! {

/// A backend type that an instruction names.
#[derive(PartialEq, Eq, Structural, Clone, Copy, Debug)]
pub enum LType {
    /// The representation of a type of the table.
    Of(TypeId),
    /// The anonymous record of the arguments of variant `k` of an enum type.
    VariantRecord(TypeId, u32),
    /// An integer of the given width in bits.
    Int(u32),
}

/// A value that an instruction uses.
#[derive(PartialEq, Eq, Structural, Clone, Copy, Debug)]
pub enum Operand {
    /// The result of instruction `i` of block `b`.
    Inst(usize, usize),
    /// The address of a local slot.
    Local(usize),
    /// The machine parameter at this position.
    Param(usize),
    /// The address of a declared function.
    Func(FuncId),
    /// A global constant.
    Const(ConstId),
    /// An integer constant of the given backend type.
    Int(LType, u64),
    /// The null pointer of a pointer type.
    Null(TypeId),
    /// The storage size of a type.
    SizeOf(TypeId),
    /// The value of code that follows a terminator; nothing recorded uses it.
    Dead,
}

#[derive(Clone, Debug, PartialEq, Eq)]
pub enum Inst {
    /// An integer constant of a type, from its decimal digits.
    Digits(TypeId, String),
    /// A floating-point constant of a type, from its literal text.
    Real(TypeId, String),
    /// Fresh storage for a value of the type; gives its address.
    Alloca(LType),
    Load(LType, Operand),
    /// Stores the value (first) at the address (second).
    Store(Operand, Operand),
    /// The address of member `i` of the record of the type at the address.
    FieldAddr(LType, Operand, u32),
    /// The address `index` elements of the type past the address.
    ElemAddr(LType, Operand, Operand),
    /// The address of element `i` of the array of the type at the address.
    ArrayElemAddr(TypeId, Operand, u32),
    /// The same address, as a pointer to the type.
    Reinterpret(Operand, LType),
    Arith(ArithOp, Operand, Operand),
    IntCompare(IntPred, Operand, Operand),
    RealCompare(RealPred, Operand, Operand),
    /// The distance between two pointers, in elements of the type.
    PointerDiff(LType, Operand, Operand),
    /// The value converted to the type.
    Convert(CastOp, Operand, TypeId),
    /// A call through a function of the given function type, with the
    /// machine arguments.
    Call(TypeId, Operand, Vec<Operand>),
    /// The address of a global, null-terminated copy of the characters.
    GlobalString(Vec<char>),
}

/// An instruction as contracts speak of it: strings and argument lists by
/// their contents.
pub enum InstV {
    Digits(TypeId, Seq<char>),
    Real(TypeId, Seq<char>),
    Alloca(LType),
    Load(LType, Operand),
    Store(Operand, Operand),
    FieldAddr(LType, Operand, u32),
    ElemAddr(LType, Operand, Operand),
    ArrayElemAddr(TypeId, Operand, u32),
    Reinterpret(Operand, LType),
    Arith(ArithOp, Operand, Operand),
    IntCompare(IntPred, Operand, Operand),
    RealCompare(RealPred, Operand, Operand),
    PointerDiff(LType, Operand, Operand),
    Convert(CastOp, Operand, TypeId),
    Call(TypeId, Operand, Seq<Operand>),
    GlobalString(Seq<char>),
}

impl View for Inst {
    type V = InstV;

    open spec fn view(&self) -> InstV {
        match self {
            Inst::Digits(t, s) => InstV::Digits(*t, s@),
            Inst::Real(t, s) => InstV::Real(*t, s@),
            Inst::Alloca(t) => InstV::Alloca(*t),
            Inst::Load(t, p) => InstV::Load(*t, *p),
            Inst::Store(v, p) => InstV::Store(*v, *p),
            Inst::FieldAddr(t, p, i) => InstV::FieldAddr(*t, *p, *i),
            Inst::ElemAddr(t, p, i) => InstV::ElemAddr(*t, *p, *i),
            Inst::ArrayElemAddr(t, p, i) => InstV::ArrayElemAddr(*t, *p, *i),
            Inst::Reinterpret(p, t) => InstV::Reinterpret(*p, *t),
            Inst::Arith(o, x, y) => InstV::Arith(*o, *x, *y),
            Inst::IntCompare(o, x, y) => InstV::IntCompare(*o, *x, *y),
            Inst::RealCompare(o, x, y) => InstV::RealCompare(*o, *x, *y),
            Inst::PointerDiff(t, x, y) => InstV::PointerDiff(*t, *x, *y),
            Inst::Convert(o, v, t) => InstV::Convert(*o, *v, *t),
            Inst::Call(t, f, args) => InstV::Call(*t, *f, args@),
            Inst::GlobalString(cs) => InstV::GlobalString(cs@),
        }
    }
}

/// The instructions of a block, as contracts speak of them.
pub open spec fn insts_view(insts: Seq<Inst>) -> Seq<InstV> {
    insts.map_values(|i: Inst| i@)
}

/// How a block ends.
#[derive(PartialEq, Eq, Structural, Clone, Copy, Debug)]
pub enum Term {
    Br(usize),
    /// To the first block if the condition holds, else to the second.
    CondBr(Operand, usize, usize),
    Ret(Operand),
    RetVoid,
}

#[derive(Clone, Debug, PartialEq, Eq)]
pub struct LBlock {
    pub insts: Vec<Inst>,
    pub term: Option<Term>,
}

/// A lowered function body. Block 0 is the entry; `locals` gives the type of
/// each local slot, allocated once on entry.
#[derive(Clone, Debug, PartialEq, Eq)]
pub struct LFunction {
    pub locals: Vec<TypeId>,
    pub blocks: Vec<LBlock>,
}

/// A declared function: its symbol and machine signature.
#[derive(Clone, Debug, PartialEq, Eq)]
pub struct LDecl {
    pub link_name: String,
    pub sig: AbiSignature,
}

/// A lowered module, each table in declaration order.
#[derive(Clone, Debug, PartialEq, Eq)]
pub struct LModule {
    /// The representation of each type of the table.
    pub types: Vec<LowType>,
    pub decls: Vec<LDecl>,
    /// For each constant, its type and decimal digits.
    pub consts: Vec<(TypeId, String)>,
    /// For each function body, the declaration it belongs to and its code.
    pub bodies: Vec<(FuncId, LFunction)>,
}

/// Each block that the terminator may transfer control to is below `n`.
pub open spec fn targets_below(t: Term, n: nat) -> bool {
    match t {
        Term::Br(b) => b < n,
        Term::CondBr(_, a, b) => a < n && b < n,
        _ => true,
    }
}

/// Block `b` ends in a terminator that jumps only to blocks of `blocks`.
pub open spec fn closed(blocks: Seq<LBlock>, b: int) -> bool {
    blocks[b].term matches Some(t) && targets_below(t, blocks.len())
}

/// Every block of the function ends in exactly one terminator, and every
/// terminator jumps to a block of the function.
pub open spec fn all_closed(blocks: Seq<LBlock>) -> bool {
    forall|b: int| 0 <= b < blocks.len() ==> #[trigger] closed(blocks, b)
}

} // verus!
