//! Which backend operation implements a source operator or cast.

use vstd::prelude::*;
use vstd::arithmetic::div_mod::{lemma_mod_add_multiples_vanish, lemma_small_mod};
use crate::ir::{Binop, Predicate, ScalarKind, Type};

verus! {

/// Arithmetic and bitwise backend operations.
#[derive(PartialEq, Eq, Structural, Clone, Copy, Debug)]
pub enum ArithOp {
    Add,
    Sub,
    Mul,
    SDiv,
    And,
    Shl,
    LShr,
    FAdd,
    FSub,
    FMul,
    FDiv,
}

/// Signed integer comparisons.
#[derive(PartialEq, Eq, Structural, Clone, Copy, Debug)]
pub enum IntPred {
    Eq,
    Ne,
    Sge,
    Sle,
    Sgt,
    Slt,
}

/// Ordered floating-point comparisons.
#[derive(PartialEq, Eq, Structural, Clone, Copy, Debug)]
pub enum RealPred {
    Oeq,
    One,
    Oge,
    Ole,
    Ogt,
    Olt,
}

/// How a binary operator is lowered for one operand kind.
#[derive(PartialEq, Eq, Structural, Clone, Copy, Debug)]
pub enum BinaryLowering {
    Arith(ArithOp),
    /// The address a number of elements past a pointer.
    PointerOffset,
    /// The distance between two pointers, in elements.
    PointerDiff,
    IntCompare(IntPred),
    RealCompare(RealPred),
}

pub open spec fn int_pred(p: Predicate) -> IntPred {
    match p {
        Predicate::Eq => IntPred::Eq,
        Predicate::Ne => IntPred::Ne,
        Predicate::Ge => IntPred::Sge,
        Predicate::Le => IntPred::Sle,
        Predicate::Gt => IntPred::Sgt,
        Predicate::Lt => IntPred::Slt,
    }
}

pub open spec fn real_pred(p: Predicate) -> RealPred {
    match p {
        Predicate::Eq => RealPred::Oeq,
        Predicate::Ne => RealPred::One,
        Predicate::Ge => RealPred::Oge,
        Predicate::Le => RealPred::Ole,
        Predicate::Gt => RealPred::Ogt,
        Predicate::Lt => RealPred::Olt,
    }
}

/// The lowering of `op` on operands of kind `kind`; `None` where there is none.
pub open spec fn binary_lowering(op: Binop, kind: ScalarKind) -> Option<BinaryLowering> {
    match (op, kind) {
        (Binop::Add, ScalarKind::Int) => Some(BinaryLowering::Arith(ArithOp::Add)),
        (Binop::Sub, ScalarKind::Int) => Some(BinaryLowering::Arith(ArithOp::Sub)),
        (Binop::Mul, ScalarKind::Int) => Some(BinaryLowering::Arith(ArithOp::Mul)),
        (Binop::Div, ScalarKind::Int) => Some(BinaryLowering::Arith(ArithOp::SDiv)),
        (Binop::And, ScalarKind::Int) => Some(BinaryLowering::Arith(ArithOp::And)),
        (Binop::Shl, ScalarKind::Int) => Some(BinaryLowering::Arith(ArithOp::Shl)),
        (Binop::Shr, ScalarKind::Int) => Some(BinaryLowering::Arith(ArithOp::LShr)),
        (Binop::Add, ScalarKind::Float) => Some(BinaryLowering::Arith(ArithOp::FAdd)),
        (Binop::Sub, ScalarKind::Float) => Some(BinaryLowering::Arith(ArithOp::FSub)),
        (Binop::Mul, ScalarKind::Float) => Some(BinaryLowering::Arith(ArithOp::FMul)),
        (Binop::Div, ScalarKind::Float) => Some(BinaryLowering::Arith(ArithOp::FDiv)),
        (Binop::Add, ScalarKind::Pointer) => Some(BinaryLowering::PointerOffset),
        (Binop::Sub, ScalarKind::Pointer) => Some(BinaryLowering::PointerDiff),
        (Binop::Cmp(p), ScalarKind::Float) => Some(BinaryLowering::RealCompare(real_pred(p))),
        (Binop::Cmp(p), _) => Some(BinaryLowering::IntCompare(int_pred(p))),
        _ => None,
    }
}

fn select_int_pred(p: Predicate) -> (r: IntPred)
    ensures
        r == int_pred(p),
{
    match p {
        Predicate::Eq => IntPred::Eq,
        Predicate::Ne => IntPred::Ne,
        Predicate::Ge => IntPred::Sge,
        Predicate::Le => IntPred::Sle,
        Predicate::Gt => IntPred::Sgt,
        Predicate::Lt => IntPred::Slt,
    }
}

fn select_real_pred(p: Predicate) -> (r: RealPred)
    ensures
        r == real_pred(p),
{
    match p {
        Predicate::Eq => RealPred::Oeq,
        Predicate::Ne => RealPred::One,
        Predicate::Ge => RealPred::Oge,
        Predicate::Le => RealPred::Ole,
        Predicate::Gt => RealPred::Ogt,
        Predicate::Lt => RealPred::Olt,
    }
}

/// Integer arithmetic is signed; comparisons are signed for integers and
/// pointers and ordered for floats.
pub fn select_binary(op: Binop, kind: ScalarKind) -> (r: Option<BinaryLowering>)
    ensures
        r == binary_lowering(op, kind),
{
    match (op, kind) {
        (Binop::Add, ScalarKind::Int) => Some(BinaryLowering::Arith(ArithOp::Add)),
        (Binop::Sub, ScalarKind::Int) => Some(BinaryLowering::Arith(ArithOp::Sub)),
        (Binop::Mul, ScalarKind::Int) => Some(BinaryLowering::Arith(ArithOp::Mul)),
        (Binop::Div, ScalarKind::Int) => Some(BinaryLowering::Arith(ArithOp::SDiv)),
        (Binop::And, ScalarKind::Int) => Some(BinaryLowering::Arith(ArithOp::And)),
        (Binop::Shl, ScalarKind::Int) => Some(BinaryLowering::Arith(ArithOp::Shl)),
        (Binop::Shr, ScalarKind::Int) => Some(BinaryLowering::Arith(ArithOp::LShr)),
        (Binop::Add, ScalarKind::Float) => Some(BinaryLowering::Arith(ArithOp::FAdd)),
        (Binop::Sub, ScalarKind::Float) => Some(BinaryLowering::Arith(ArithOp::FSub)),
        (Binop::Mul, ScalarKind::Float) => Some(BinaryLowering::Arith(ArithOp::FMul)),
        (Binop::Div, ScalarKind::Float) => Some(BinaryLowering::Arith(ArithOp::FDiv)),
        (Binop::Add, ScalarKind::Pointer) => Some(BinaryLowering::PointerOffset),
        (Binop::Sub, ScalarKind::Pointer) => Some(BinaryLowering::PointerDiff),
        (Binop::Cmp(p), ScalarKind::Float) => Some(BinaryLowering::RealCompare(select_real_pred(p))),
        (Binop::Cmp(p), _) => Some(BinaryLowering::IntCompare(select_int_pred(p))),
        _ => None,
    }
}

/// Backend conversions between scalar types.
#[derive(PartialEq, Eq, Structural, Clone, Copy, Debug)]
pub enum CastOp {
    /// The value is used as it is.
    Identity,
    SignExtend,
    Truncate,
    IntToFloat,
    FloatToInt,
    FloatExtend,
    FloatTruncate,
    PointerCast,
}

/// The width in bits of an integer type other than `Bool`.
pub open spec fn int_width(t: Type) -> Option<nat> {
    match t {
        Type::I8 => Some(8),
        Type::I16 => Some(16),
        Type::I32 => Some(32),
        Type::I64 => Some(64),
        _ => None,
    }
}

/// The conversion that a cast from `src` to `dst` lowers to; `None` for a
/// pair outside the supported matrix.
pub open spec fn cast_lowering(src: Type, dst: Type) -> Option<CastOp> {
    match (src, dst) {
        (Type::Pointer(_), Type::Pointer(_)) => Some(CastOp::PointerCast),
        (Type::F32, Type::F32) | (Type::F64, Type::F64) | (Type::Bool, Type::Bool) => Some(CastOp::Identity),
        (Type::I32, Type::F32) | (Type::I32, Type::F64) => Some(CastOp::IntToFloat),
        (Type::F32, Type::I32) => Some(CastOp::FloatToInt),
        (Type::F32, Type::F64) => Some(CastOp::FloatExtend),
        (Type::F64, Type::F32) => Some(CastOp::FloatTruncate),
        _ => match (int_width(src), int_width(dst)) {
            (Some(a), Some(b)) => if a == b {
                Some(CastOp::Identity)
            } else if a < b {
                Some(CastOp::SignExtend)
            } else {
                Some(CastOp::Truncate)
            },
            _ => None,
        },
    }
}

fn width(t: &Type) -> (r: Option<u32>)
    ensures
        r matches Some(w) ==> int_width(*t) == Some(w as nat),
        r is None ==> int_width(*t) is None,
{
    match t {
        Type::I8 => Some(8),
        Type::I16 => Some(16),
        Type::I32 => Some(32),
        Type::I64 => Some(64),
        _ => None,
    }
}

/// Selects the conversion for a cast: identity for equal types, sign
/// extension to a wider integer, truncation to a narrower one, the 32-bit
/// integer and float conversions, float widening and narrowing, and pointer
/// reinterpretation.
pub fn select_cast(src: &Type, dst: &Type) -> (r: Option<CastOp>)
    ensures
        r == cast_lowering(*src, *dst),
{
    match (src, dst) {
        (Type::Pointer(_), Type::Pointer(_)) => Some(CastOp::PointerCast),
        (Type::F32, Type::F32) | (Type::F64, Type::F64) | (Type::Bool, Type::Bool) => Some(CastOp::Identity),
        (Type::I32, Type::F32) | (Type::I32, Type::F64) => Some(CastOp::IntToFloat),
        (Type::F32, Type::I32) => Some(CastOp::FloatToInt),
        (Type::F32, Type::F64) => Some(CastOp::FloatExtend),
        (Type::F64, Type::F32) => Some(CastOp::FloatTruncate),
        _ => match (width(src), width(dst)) {
            (Some(a), Some(b)) => if a == b {
                Some(CastOp::Identity)
            } else if a < b {
                Some(CastOp::SignExtend)
            } else {
                Some(CastOp::Truncate)
            },
            _ => None,
        },
    }
}

/// The number of distinct values of an integer of `bits` bits.
pub open spec fn modulus(bits: nat) -> int {
    if bits == 8 {
        0x100
    } else if bits == 16 {
        0x1_0000
    } else if bits == 32 {
        0x1_0000_0000
    } else {
        0x1_0000_0000_0000_0000
    }
}

/// `v` reduced to a signed integer of `bits` bits (two's complement).
pub open spec fn wrap_signed(bits: nat, v: int) -> int {
    let r = v % modulus(bits);
    if r >= modulus(bits) / 2 {
        r - modulus(bits)
    } else {
        r
    }
}

/// The value an integer conversion gives, as a signed integer of `dst_bits`
/// bits, for the signed source value `v`.
pub open spec fn int_cast_value(op: CastOp, dst_bits: nat, v: int) -> int {
    match op {
        CastOp::Truncate => wrap_signed(dst_bits, v),
        _ => v,
    }
}

/// A cast between two integer types gives the source value reduced to the
/// destination width: narrowing wraps around, widening keeps the signed value.
pub proof fn lemma_int_cast_wraps(src: Type, dst: Type, v: int)
    requires
        int_width(src) is Some,
        int_width(dst) is Some,
        -modulus(int_width(src)->0) / 2 <= v < modulus(int_width(src)->0) / 2,
    ensures
        cast_lowering(src, dst) matches Some(op) && int_cast_value(op, int_width(dst)->0, v)
            == wrap_signed(int_width(dst)->0, v),
{
    let a = int_width(src)->0;
    let b = int_width(dst)->0;
    if a <= b {
        assert(-modulus(b) / 2 <= v < modulus(b) / 2);
        let m = modulus(b);
        if v >= 0 {
            lemma_small_mod(v as nat, m as nat);
        } else {
            lemma_mod_add_multiples_vanish(v, m);
            lemma_small_mod((m + v) as nat, m as nat);
        }
    }
}

} // verus!
