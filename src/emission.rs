//! What the lowering of an expression appends to the current block, and the
//! value it gives, for an expression that can be lowered. Positions are
//! those of the current block `cur`, whose next instruction is at `n`.

use vstd::prelude::*;
use crate::abi::slot_count;
use crate::ir::{Stmt, kind_of, scalar_kind_of, Expr, ExprKind, Module, ScalarKind, Type, TypeId, TypeKind, Unop};
use crate::layout::tag_field;
use crate::lir::{InstV, LType, Operand, Term};
use crate::lower::Value;
use crate::literal::unescaped;
use crate::ops::{binary_lowering, cast_lowering, BinaryLowering, CastOp};

verus! {

/// The result of the instruction at position `n` of block `cur`.
pub open spec fn at(cur: usize, n: int) -> Operand {
    Operand::Inst(cur, n as usize)
}

/// The machine operand of declared parameter `i`.
pub open spec fn param_op(m: Module, ps: Seq<TypeId>, i: usize) -> Operand {
    Operand::Param(slot_count(m.types@, ps.take(i as int)) as usize)
}

/// The type a pointer or an array type is made of.
pub open spec fn elem_of(t: Type) -> TypeId {
    match t {
        Type::Pointer(x) => x,
        Type::Array(x, _) => x,
        _ => 0,
    }
}

/// A place: the instructions that compute its address, and the address.
pub open spec fn place_low(m: Module, ps: Seq<TypeId>, cur: usize, n: int, e: Expr) -> (Seq<InstV>, Operand)
    decreases e, 1int, 0int,
{
    let types = m.types@;
    match e.kind {
        ExprKind::Local(i) => (seq![], Operand::Local(i)),
        ExprKind::Param(i) => (seq![], param_op(m, ps, i)),
        ExprKind::Index(p, i) => {
            let (a, base) = if types[p.ty as int] is Pointer {
                scalar_low(m, ps, cur, n, *p)
            } else {
                place_low(m, ps, cur, n, *p)
            };
            let (b, idx) = scalar_low(m, ps, cur, n + a.len(), *i);
            (a + b + seq![InstV::ElemAddr(LType::Of(elem_of(types[p.ty as int])), base, idx)], at(cur, n + a.len() + b.len()))
        },
        ExprKind::Field(x, i) => {
            let (a, base) = if types[x.ty as int] is Pointer {
                scalar_low(m, ps, cur, n, *x)
            } else {
                place_low(m, ps, cur, n, *x)
            };
            let record = if types[x.ty as int] is Pointer { elem_of(types[x.ty as int]) } else { x.ty };
            (a.push(InstV::FieldAddr(LType::Of(record), base, i)), at(cur, n + a.len()))
        },
        ExprKind::Unary(Unop::Deref, p) => scalar_low(m, ps, cur, n, *p),
        ExprKind::Func(i) => (seq![], Operand::Func(i)),
        ExprKind::EnumField(x, k, i) => {
            let (a, base) = place_low(m, ps, cur, n, *x);
            let p = n + a.len();
            (a + seq![
                InstV::FieldAddr(LType::Of(x.ty), base, 0),
                InstV::Reinterpret(at(cur, p), LType::VariantRecord(x.ty, k)),
                InstV::FieldAddr(LType::VariantRecord(x.ty, k), at(cur, p + 1), i),
            ], at(cur, p + 2))
        },
        _ => (seq![], Operand::Dead),
    }
}

/// The instruction that binary operator lowering `l` appends.
pub open spec fn binary_inst(l: BinaryLowering, types: Seq<Type>, e: Expr, x: Expr, xv: Operand, yv: Operand) -> InstV {
    match l {
        BinaryLowering::Arith(o) => InstV::Arith(o, xv, yv),
        BinaryLowering::PointerOffset => InstV::ElemAddr(LType::Of(elem_of(types[e.ty as int])), xv, yv),
        BinaryLowering::PointerDiff => InstV::PointerDiff(LType::Of(elem_of(types[x.ty as int])), xv, yv),
        BinaryLowering::IntCompare(p) => InstV::IntCompare(p, xv, yv),
        BinaryLowering::RealCompare(p) => InstV::RealCompare(p, xv, yv),
    }
}

/// A scalar: the instructions that compute it, and its value.
pub open spec fn scalar_low(m: Module, ps: Seq<TypeId>, cur: usize, n: int, e: Expr) -> (Seq<InstV>, Operand)
    decreases e, 2int, 0int,
{
    let types = m.types@;
    match e.kind {
        ExprKind::Index(_, _) | ExprKind::Field(_, _) | ExprKind::EnumField(_, _, _) => {
            let (a, p) = place_low(m, ps, cur, n, e);
            (a.push(InstV::Load(LType::Of(e.ty), p)), at(cur, n + a.len()))
        },
        ExprKind::Float(s) => (seq![InstV::Real(e.ty, s@)], at(cur, n)),
        ExprKind::Integer(s) => (seq![InstV::Digits(e.ty, s@)], at(cur, n)),
        ExprKind::Local(i) => (seq![InstV::Load(LType::Of(e.ty), Operand::Local(i))], at(cur, n)),
        ExprKind::Param(i) => (seq![], param_op(m, ps, i)),
        ExprKind::Func(i) => (seq![], Operand::Func(i)),
        ExprKind::Binary(op, x, y) => {
            let kind = match scalar_kind_of(types[x.ty as int]) {
                Some(k) => k,
                None => ScalarKind::Int,
            };
            let l = match binary_lowering(op, kind) {
                Some(l) => l,
                None => BinaryLowering::PointerDiff,
            };
            let (a, xv) = scalar_low(m, ps, cur, n, *x);
            let (b, yv) = scalar_low(m, ps, cur, n + a.len(), *y);
            (a + b + seq![binary_inst(l, types, e, *x, xv, yv)], at(cur, n + a.len() + b.len()))
        },
        ExprKind::String(lit) => (seq![InstV::GlobalString(unescaped(lit@))], at(cur, n)),
        ExprKind::Call(_, _) => call_low(m, ps, cur, n, e, None),
        ExprKind::Cast(x, t) => {
            let (a, v) = scalar_low(m, ps, cur, n, *x);
            match cast_lowering(types[x.ty as int], types[t as int]) {
                Some(CastOp::Identity) => (a, v),
                Some(op) => (a.push(InstV::Convert(op, v, t)), at(cur, n + a.len())),
                None => (a, v),
            }
        },
        ExprKind::Bool(b) => (seq![], Operand::Int(LType::Int(1), if b { 1 } else { 0 })),
        ExprKind::Unary(Unop::AddressOf, x) => place_low(m, ps, cur, n, *x),
        ExprKind::Unary(Unop::Deref, p) => {
            let (a, q) = scalar_low(m, ps, cur, n, *p);
            (a.push(InstV::Load(LType::Of(e.ty), q)), at(cur, n + a.len()))
        },
        ExprKind::Sizeof(t) => (seq![], Operand::SizeOf(t)),
        ExprKind::Const(i) => (seq![], Operand::Const(i)),
        ExprKind::Null => (seq![], Operand::Null(e.ty)),
        ExprKind::Char(c) => (seq![], Operand::Int(LType::Of(e.ty), c as u64)),
        ExprKind::EnumVariant(k) => (seq![], Operand::Int(LType::Of(e.ty), k as u64)),
        ExprKind::EnumTag(en) => {
            let (a, p) = place_low(m, ps, cur, n, *en);
            let tag = match types[en.ty as int] {
                Type::Enum(et) => tag_field(et),
                _ => 0,
            };
            (a + seq![
                InstV::FieldAddr(LType::Of(en.ty), p, tag),
                InstV::Load(LType::Int(8), at(cur, n + a.len())),
            ], at(cur, n + a.len() + 1))
        },
        _ => (seq![], Operand::Dead),
    }
}

/// The function type that a call goes through.
pub open spec fn callee_type(types: Seq<Type>, func: Expr) -> TypeId {
    match types[func.ty as int] {
        Type::Pointer(t) => t,
        _ => func.ty,
    }
}

/// A call: the callee, then the arguments in order, then the call with the
/// machine arguments (a trailing `sret` if given); its value is the call's.
pub open spec fn call_low(m: Module, ps: Seq<TypeId>, cur: usize, n: int, e: Expr, sret: Option<Operand>) -> (Seq<InstV>, Operand)
    decreases e, 1int, 0int,
{
    match e.kind {
        ExprKind::Call(func, args) => {
            let (a, callee) = scalar_low(m, ps, cur, n, *func);
            let (b, ops) = args_low(m, ps, cur, n + a.len(), e, args@.len() as int);
            let all = match sret {
                Some(d) => ops.push(d),
                None => ops,
            };
            (a + b + seq![InstV::Call(callee_type(m.types@, *func), callee, all)], at(cur, n + a.len() + b.len()))
        },
        _ => (seq![], Operand::Dead),
    }
}

/// The first `k` arguments of call `e`: their instructions, and the machine
/// argument of each that is not unit (an aggregate by its address).
pub open spec fn args_low(m: Module, ps: Seq<TypeId>, cur: usize, n: int, e: Expr, k: int) -> (Seq<InstV>, Seq<Operand>)
    decreases e, 0int, k,
{
    match e.kind {
        ExprKind::Call(_, args) => if k <= 0 || k > args@.len() {
            (seq![], seq![])
        } else {
            let (a, ops) = args_low(m, ps, cur, n, e, k - 1);
            let (b, v) = expr_low(m, ps, cur, n + a.len(), args@[k - 1], None);
            (a + b, match v {
                Value::Scalar(o) => ops.push(o),
                Value::Aggregate(o) => ops.push(o),
                Value::Unit => ops,
            })
        },
        _ => (seq![], seq![]),
    }
}

/// A unit expression: a call's instructions, or none.
pub open spec fn unit_low(m: Module, ps: Seq<TypeId>, cur: usize, n: int, e: Expr) -> Seq<InstV>
    decreases e, 2int, 0int,
{
    match e.kind {
        ExprKind::Call(_, _) => call_low(m, ps, cur, n, e, None).0,
        _ => seq![],
    }
}

/// A copy of a value of type `ty` from `src` to `dst`: a load and a store,
/// nothing for unit.
pub open spec fn copy_low(m: Module, cur: usize, n: int, ty: TypeId, src: Operand, dst: Operand) -> Seq<InstV> {
    if kind_of(m.types@[ty as int]) == TypeKind::Unit {
        seq![]
    } else {
        seq![InstV::Load(LType::Of(ty), src), InstV::Store(at(cur, n), dst)]
    }
}

/// An aggregate written into the storage at `dst`.
pub open spec fn agg_low(m: Module, ps: Seq<TypeId>, cur: usize, n: int, e: Expr, dst: Operand) -> Seq<InstV>
    decreases e, 2int, 0int,
{
    let types = m.types@;
    match e.kind {
        ExprKind::Tuple(elems) => members_low(m, ps, cur, n, e, dst, elems@.len() as int),
        ExprKind::Struct(fields) => members_low(m, ps, cur, n, e, dst, fields@.len() as int),
        ExprKind::Array(elems) => members_low(m, ps, cur, n, e, dst, elems@.len() as int),
        ExprKind::Call(_, _) => call_low(m, ps, cur, n, e, Some(dst)).0,
        ExprKind::Param(i) => copy_low(m, cur, n, e.ty, param_op(m, ps, i), dst),
        ExprKind::Unary(Unop::Deref, p) => {
            let (a, q) = scalar_low(m, ps, cur, n, *p);
            a + copy_low(m, cur, n + a.len(), e.ty, q, dst)
        },
        ExprKind::EnumCall(k, args) => {
            let tag = match types[e.ty as int] {
                Type::Enum(et) => tag_field(et),
                _ => 0,
            };
            seq![
                InstV::FieldAddr(LType::Of(e.ty), dst, tag),
                InstV::Store(Operand::Int(LType::Int(8), k as u64), at(cur, n)),
            ] + members_low(m, ps, cur, n + 2, e, dst, args@.len() as int)
        },
        ExprKind::Field(_, _) | ExprKind::Index(_, _) | ExprKind::Local(_) => {
            let (a, p) = place_low(m, ps, cur, n, e);
            a + copy_low(m, cur, n + a.len(), e.ty, p, dst)
        },
        _ => seq![],
    }
}

/// The first `k` members of a tuple, struct, array or enum construction
/// written into `dst`: for each, its address, then its value stored there.
/// An enum's arguments go into the payload read as the variant's record.
pub open spec fn members_low(m: Module, ps: Seq<TypeId>, cur: usize, n: int, e: Expr, dst: Operand, k: int) -> Seq<InstV>
    decreases e, 0int, k,
{
    if k <= 0 {
        seq![]
    } else {
        let a = members_low(m, ps, cur, n, e, dst, k - 1);
        let p = n + a.len();
        match e.kind {
            ExprKind::Tuple(elems) => if k > elems@.len() {
                seq![]
            } else {
                a + seq![InstV::FieldAddr(LType::Of(e.ty), dst, (k - 1) as u32)] + expr_low(
                    m, ps, cur, p + 1, elems@[k - 1], Some(at(cur, p)),
                ).0
            },
            ExprKind::Struct(fields) => if k > fields@.len() {
                seq![]
            } else {
                a + seq![InstV::FieldAddr(LType::Of(e.ty), dst, fields@[k - 1].0)] + expr_low(
                    m, ps, cur, p + 1, fields@[k - 1].1, Some(at(cur, p)),
                ).0
            },
            ExprKind::Array(elems) => if k > elems@.len() {
                seq![]
            } else {
                a + seq![InstV::ArrayElemAddr(e.ty, dst, (k - 1) as u32)] + expr_low(
                    m, ps, cur, p + 1, elems@[k - 1], Some(at(cur, p)),
                ).0
            },
            ExprKind::EnumCall(v, args) => if k > args@.len() {
                seq![]
            } else {
                a + seq![
                    InstV::FieldAddr(LType::Of(e.ty), dst, 0),
                    InstV::Reinterpret(at(cur, p), LType::VariantRecord(e.ty, v)),
                    InstV::FieldAddr(LType::VariantRecord(e.ty, v), at(cur, p + 1), (k - 1) as u32),
                ] + expr_low(m, ps, cur, p + 3, args@[k - 1], Some(at(cur, p + 2))).0
            },
            _ => seq![],
        }
    }
}

/// An expression by its classification: a unit is only evaluated; an
/// aggregate is written to `dst`, or to fresh storage allocated first, and
/// its value is that address; a scalar is also stored at `dst` if given.
pub open spec fn expr_low(m: Module, ps: Seq<TypeId>, cur: usize, n: int, e: Expr, dst: Option<Operand>) -> (Seq<InstV>, Value)
    decreases e, 3int, 0int,
{
    match kind_of(m.types@[e.ty as int]) {
        TypeKind::Unit => (unit_low(m, ps, cur, n, e), Value::Unit),
        TypeKind::Aggregate => match dst {
            Some(d) => (agg_low(m, ps, cur, n, e, d), Value::Aggregate(d)),
            None => (seq![InstV::Alloca(LType::Of(e.ty))] + agg_low(m, ps, cur, n + 1, e, at(cur, n)), Value::Aggregate(at(cur, n))),
        },
        TypeKind::Scalar => {
            let (a, v) = scalar_low(m, ps, cur, n, e);
            match dst {
                Some(d) => (a.push(InstV::Store(v, d)), Value::Scalar(v)),
                None => (a, Value::Scalar(v)),
            }
        },
    }
}

/// The return slot as an operand, if the function has one.
pub open spec fn slot_op(sret: Option<usize>) -> Option<Operand> {
    match sret {
        Some(i) => Some(Operand::Param(i)),
        None => None,
    }
}

/// How a `return` of value `v` ends its block: with the value if it is a
/// scalar, else with no value (an aggregate went through the return slot).
pub open spec fn ret_term(v: Value) -> Term {
    match v {
        Value::Scalar(o) => Term::Ret(o),
        _ => Term::RetVoid,
    }
}

/// An assignment or an expression statement: for an assignment, the
/// place's address, then the value written there.
pub open spec fn simple_stmt_low(m: Module, ps: Seq<TypeId>, cur: usize, n: int, s: Stmt) -> Seq<InstV> {
    match s {
        Stmt::Assign(place, value) => {
            let (a, at) = place_low(m, ps, cur, n, place);
            a + expr_low(m, ps, cur, n + a.len(), value, Some(at)).0
        },
        Stmt::Expr(value) => expr_low(m, ps, cur, n, value, None).0,
        _ => seq![],
    }
}

/// The statements are all assignments and expression statements.
pub open spec fn all_simple(ss: Seq<Stmt>) -> bool {
    forall|i: int| 0 <= i < ss.len() ==> (#[trigger] ss[i] is Assign || ss[i] is Expr)
}

/// Straight-line statements, in order, into the current block.
pub open spec fn straight_low(m: Module, ps: Seq<TypeId>, cur: usize, n: int, ss: Seq<Stmt>) -> Seq<InstV>
    decreases ss.len(),
{
    if ss.len() == 0 {
        seq![]
    } else {
        let a = straight_low(m, ps, cur, n, ss.drop_last());
        a + simple_stmt_low(m, ps, cur, n + a.len(), ss.last())
    }
}

} // verus!
