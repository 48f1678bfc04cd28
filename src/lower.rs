//! Lowering of function bodies: places, expressions by classification, and
//! structured control flow.

use vstd::prelude::*;
use crate::abi::{abi_index, ids_valid, lemma_param_slots_len, slot_count};
use crate::ir::{
    kind_of, scalar_kind_of, Expr, ExprKind, FuncBody, Module, Stmt, Type, TypeId, TypeKind, Unop,
};
use crate::layout::{ids_below, table_valid, tag_field, tag_index, types_valid, types_well_founded, well_founded};
use crate::lir::{all_closed, insts_view, targets_below, Inst, InstV, LBlock, LFunction, LType, Operand, Term};
use crate::emission::{all_simple, ret_term, simple_stmt_low, slot_op, straight_low, args_low, at, agg_low, members_low, call_low, copy_low, expr_low, place_low, scalar_low, unit_low};
use crate::literal::unescape;
use crate::ops::{binary_lowering, cast_lowering, select_binary, select_cast, BinaryLowering, CastOp};

verus! {

/// A contract violation found in the input: a defect of this library or of
/// the stage that produced the module.
#[derive(PartialEq, Eq, Structural, Clone, Copy, Debug)]
pub enum LowerError {
    /// A type, local, parameter, function, constant or variant id out of
    /// range, or a record with more members than a member index can name.
    BadReference,
    /// An address was asked of an expression that has none.
    NotAPlace,
    NotScalar,
    NotAggregate,
    NotUnit,
    /// A call through a value that is neither a function nor a pointer to one.
    NotCallable,
    NotAnEnum,
    /// A field of something that is not a record.
    NotARecord,
    BreakOutsideLoop,
    ContinueOutsideLoop,
    /// No lowering for this operator on this operand kind.
    UnsupportedOperator,
    /// A cast outside the supported matrix.
    UnsupportedCast,
    /// A string literal without its quotes.
    BadLiteral,
    /// A constant that is not an integer literal.
    ConstNotLiteral,
    /// A type whose representation is built from itself other than through
    /// a struct or an enum.
    CyclicType,
}

/// The result of lowering an expression, by its classification.
#[derive(PartialEq, Eq, Structural, Clone, Copy, Debug)]
pub enum Value {
    Unit,
    Scalar(Operand),
    /// The address of the storage that holds the value.
    Aggregate(Operand),
}

/// The state of the lowering of one function body.
pub struct FuncLowering {
    pub func: LFunction,
    /// The block that code is appended to.
    pub cur: usize,
    /// The innermost loop's exit last.
    pub break_dest: Vec<usize>,
    /// The innermost loop's next-iteration block last.
    pub continue_dest: Vec<usize>,
    /// The machine position of the indirect-return slot, if there is one.
    pub sret: Option<usize>,
}

/// The number of expressions of `args` whose type is not unit: those that
/// take a machine argument.
pub open spec fn valued_count(types: Seq<Type>, args: Seq<Expr>) -> nat
    decreases args.len(),
{
    if args.len() == 0 {
        0
    } else {
        valued_count(types, args.drop_last()) + if kind_of(types[args.last().ty as int]) == TypeKind::Unit {
            0nat
        } else {
            1nat
        }
    }
}

/// `inst` is a call with `n` machine arguments for the declared arguments,
/// followed by the destination `sret` as one more, trailing argument if it
/// is given.
pub open spec fn call_shape(inst: Inst, n: nat, sret: Option<Operand>) -> bool {
    match inst {
        Inst::Call(_, _, args) => match sret {
            Some(d) => args@.len() == n + 1 && args@.last() == d,
            None => args@.len() == n,
        },
        _ => false,
    }
}

/// Instructions `at` and `at + 1` of block `cur` store the ordinal `k`, as
/// one byte, at the tag member of the enum of type `enum_ty` at `dst`.
pub open spec fn tag_stored(types: Seq<Type>, enum_ty: TypeId, dst: Operand, k: u32, cur: usize, at: int, insts: Seq<Inst>) -> bool {
    match types[enum_ty as int] {
        Type::Enum(et) => {
            &&& 0 <= at
            &&& at + 2 <= insts.len()
            &&& insts[at] == Inst::FieldAddr(LType::Of(enum_ty), dst, tag_field(et))
            &&& insts[at + 1] == Inst::Store(Operand::Int(LType::Int(8), k as u64), Operand::Inst(cur, at as usize))
        },
        _ => false,
    }
}

/// The last two instructions of block `cur` load, as one byte, the tag
/// member of an enum of type `enum_ty`, and `r` is the loaded value.
pub open spec fn tag_loaded(types: Seq<Type>, enum_ty: TypeId, cur: usize, insts: Seq<Inst>, r: Operand) -> bool {
    match types[enum_ty as int] {
        Type::Enum(et) => {
            let n = insts.len() as int;
            &&& n >= 2
            &&& insts[n - 2] matches Inst::FieldAddr(t, _, f) && t == LType::Of(enum_ty) && f == tag_field(et)
            &&& insts[n - 1] == Inst::Load(LType::Int(8), Operand::Inst(cur, (n - 2) as usize))
            &&& r == Operand::Inst(cur, (n - 1) as usize)
        },
        _ => false,
    }
}

/// `insts` extends `before` with the address of argument `i` of variant `k`
/// of the enum of type `enum_ty` at `base`: its payload member, read as the
/// variant's record, then member `i` of that record; `r` is that address.
pub open spec fn variant_field_path(before: Seq<Inst>, insts: Seq<Inst>, cur: usize, enum_ty: TypeId, base: Operand, k: u32, i: u32, r: Operand) -> bool {
    let n = before.len();
    &&& insts == before + seq![
        Inst::FieldAddr(LType::Of(enum_ty), base, 0),
        Inst::Reinterpret(Operand::Inst(cur, n as usize), LType::VariantRecord(enum_ty, k)),
        Inst::FieldAddr(LType::VariantRecord(enum_ty, k), Operand::Inst(cur, (n + 1) as usize), i),
    ]
    &&& r == Operand::Inst(cur, (n + 2) as usize)
}

/// The last three instructions of block `cur` compute, from the address of
/// an enum of type `enum_ty`, the address `r` of argument `i` of variant `k`,
/// as `variant_field_path` describes.
pub open spec fn ends_in_variant_field(insts: Seq<Inst>, cur: usize, enum_ty: TypeId, k: u32, i: u32, r: Operand) -> bool {
    let n = insts.len() as int;
    &&& n >= 3
    &&& insts[n - 3] matches Inst::FieldAddr(t, _, f) && t == LType::Of(enum_ty) && f == 0
    &&& insts[n - 2] == Inst::Reinterpret(Operand::Inst(cur, (n - 3) as usize), LType::VariantRecord(enum_ty, k))
    &&& insts[n - 1] == Inst::FieldAddr(LType::VariantRecord(enum_ty, k), Operand::Inst(cur, (n - 2) as usize), i)
    &&& r == Operand::Inst(cur, (n - 1) as usize)
}

/// Positions `pos` of `insts`, past `from` and in increasing order, hold
/// the address of the member that each of `fields` names, in the record of
/// type `ty` at `dst`; for a field of scalar type, a store to that address
/// follows before the next field's.
pub open spec fn fields_written(types: Seq<Type>, insts: Seq<Inst>, from: int, cur: usize, ty: TypeId, dst: Operand, fields: Seq<(u32, Expr)>, pos: Seq<int>) -> bool {
    &&& pos.len() == fields.len()
    &&& forall|j: int| 0 <= j < pos.len() ==> from <= #[trigger] pos[j] < insts.len()
    &&& forall|j: int| 0 < j < pos.len() ==> pos[j - 1] < #[trigger] pos[j]
    &&& forall|j: int| 0 <= j < pos.len() ==> insts[#[trigger] pos[j]] == Inst::FieldAddr(LType::Of(ty), dst, fields[j].0)
    &&& forall|j: int|
        0 <= j < pos.len() && kind_of(types[fields[j].1.ty as int]) == TypeKind::Scalar ==> exists|q: int|
            pos[j] < q < (if j + 1 < pos.len() { pos[j + 1] } else { insts.len() as int }) && #[trigger] insts[q] == Inst::Store(
                insts[q]->Store_0,
                Operand::Inst(cur, pos[j] as usize),
            )
}

/// The module and the parameter types of the function being lowered refer
/// only to types of the table.
pub open spec fn context_valid(m: &Module, params: &Vec<TypeId>) -> bool {
    table_valid(m.types@) && ids_valid(m.types@, params@)
}

impl FuncLowering {
    pub open spec fn n_blocks(self) -> int {
        self.func.blocks@.len() as int
    }

    pub open spec fn is_open(self, b: int) -> bool {
        self.func.blocks@[b].term is None
    }

    /// The current block exists, loop targets are blocks, and every
    /// terminator jumps to a block.
    pub open spec fn wf(self) -> bool {
        &&& self.cur < self.n_blocks()
        &&& self.break_dest@.len() == self.continue_dest@.len()
        &&& forall|i: int| 0 <= i < self.break_dest@.len() ==> #[trigger] self.break_dest@[i] < self.n_blocks()
        &&& forall|i: int| 0 <= i < self.continue_dest@.len() ==> #[trigger] self.continue_dest@[i] < self.n_blocks()
        &&& forall|b: int| 0 <= b < self.n_blocks() ==> (#[trigger] self.func.blocks@[b].term matches Some(t) ==> targets_below(t, self.n_blocks() as nat))
    }

    /// What lowering an expression keeps: it appends instructions to the
    /// current block only.
    pub open spec fn same_shape(self, o: Self) -> bool {
        &&& o.cur == self.cur
        &&& o.n_blocks() == self.n_blocks()
        &&& forall|b: int| 0 <= b < self.n_blocks() ==> (#[trigger] o.func.blocks@[b].term) == self.func.blocks@[b].term
        &&& o.break_dest@ == self.break_dest@
        &&& o.continue_dest@ == self.continue_dest@
        &&& o.sret == self.sret
        &&& o.func.locals@ == self.func.locals@
        &&& self.insts_kept(o)
        &&& forall|b: int| 0 <= b < self.n_blocks() && b != self.cur ==> #[trigger] o.func.blocks@[b] == self.func.blocks@[b]
        &&& !self.is_open(self.cur as int) ==> o.func.blocks@[self.cur as int] == self.func.blocks@[self.cur as int]
    }

    /// The instructions of the current block in `self` stay, in place, in `o`.
    pub open spec fn insts_kept(self, o: Self) -> bool {
        let old_insts = self.func.blocks@[self.cur as int].insts@;
        let new_insts = o.func.blocks@[self.cur as int].insts@;
        &&& old_insts.len() <= new_insts.len()
        &&& forall|j: int| 0 <= j < old_insts.len() ==> new_insts[j] == #[trigger] old_insts[j]
    }

    /// The instructions of the current block, as contracts speak of them.
    pub open spec fn cur_view(self) -> Seq<InstV> {
        insts_view(self.func.blocks@[self.cur as int].insts@)
    }

    /// The number of instructions in the current block.
    pub open spec fn cur_len(self) -> int {
        self.cur_view().len() as int
    }

    /// Appends an instruction to the current block and gives its result.
    /// After a terminator nothing is appended: that code cannot run.
    pub fn emit(&mut self, inst: Inst) -> (r: Operand)
        requires
            old(self).wf(),
        ensures
            final(self).wf(),
            old(self).same_shape(*final(self)),
            old(self).is_open(old(self).cur as int) ==> r == Operand::Inst(
                old(self).cur,
                old(self).func.blocks@[old(self).cur as int].insts@.len() as usize,
            ) && final(self).func.blocks@[old(self).cur as int].insts@ == old(
                self,
            ).func.blocks@[old(self).cur as int].insts@.push(inst),
            !old(self).is_open(old(self).cur as int) ==> r == Operand::Dead,
            old(self).is_open(old(self).cur as int) ==> final(self).cur_view() == old(self).cur_view().push(inst@),
            old(self).is_open(old(self).cur as int) ==> final(self).cur_view() == old(self).cur_view() + seq![inst@],
    {
        let cur = self.cur;
        let open = match &self.func.blocks[cur].term {
            None => true,
            Some(_) => false,
        };
        if open {
            let n = self.func.blocks[cur].insts.len();
            self.func.blocks[cur].insts.push(inst);
            assert(self.cur_view() =~= old(self).cur_view().push(inst@));
            assert(self.cur_view() =~= old(self).cur_view() + seq![inst@]);
            Operand::Inst(cur, n)
        } else {
            Operand::Dead
        }
    }
}

/// Type `id` of the module's table.
fn type_at(m: &Module, id: TypeId) -> (r: Result<&Type, LowerError>)
    ensures
        r matches Ok(t) ==> id < m.types@.len() && *t == m.types@[id as int],
        r is Err ==> id >= m.types@.len(),
{
    if id < m.types.len() {
        Ok(&m.types[id])
    } else {
        Err(LowerError::BadReference)
    }
}

impl FuncLowering {
    /// The machine operand of declared parameter `i`.
    fn param(&self, m: &Module, params: &Vec<TypeId>, i: usize) -> (r: Result<Operand, LowerError>)
        requires
            context_valid(m, params),
        ensures
            r matches Ok(o) ==> i < params@.len() && o == Operand::Param(
                crate::abi::slot_count(m.types@, params@.take(i as int)) as usize,
            ),
            r is Err <==> i >= params@.len(),
    {
        if i < params.len() {
            Ok(Operand::Param(abi_index(&m.types, params, i)))
        } else {
            Err(LowerError::BadReference)
        }
    }

    /// The address of the argument `i` of variant `k` in the enum of type
    /// `enum_ty` stored at `base`: the payload member, read as the variant's
    /// record.
    pub fn variant_field_addr(&mut self, enum_ty: TypeId, base: Operand, k: u32, i: u32) -> (r: Operand)
        requires
            old(self).wf(),
        ensures
            final(self).wf(),
            old(self).same_shape(*final(self)),
            old(self).is_open(old(self).cur as int) ==> final(self).cur_view() == old(self).cur_view() + seq![
                InstV::FieldAddr(LType::Of(enum_ty), base, 0),
                InstV::Reinterpret(at(old(self).cur, old(self).cur_len()), LType::VariantRecord(enum_ty, k)),
                InstV::FieldAddr(LType::VariantRecord(enum_ty, k), at(old(self).cur, old(self).cur_len() + 1), i),
            ] && r == at(old(self).cur, old(self).cur_len() + 2),
            old(self).is_open(old(self).cur as int) ==> variant_field_path(
                old(self).func.blocks@[old(self).cur as int].insts@,
                final(self).func.blocks@[old(self).cur as int].insts@,
                old(self).cur,
                enum_ty,
                base,
                k,
                i,
                r,
            ),
    {
        let ghost s0 = *self;
        let payload = self.emit(Inst::FieldAddr(LType::Of(enum_ty), base, 0));
        let ghost s1 = *self;
        let record = self.emit(Inst::Reinterpret(payload, LType::VariantRecord(enum_ty, k)));
        let ghost s2 = *self;
        let r = self.emit(Inst::FieldAddr(LType::VariantRecord(enum_ty, k), record, i));
        proof {
            let cur = old(self).cur as int;
            if old(self).is_open(cur) {
                let n = s0.func.blocks@[cur].insts@.len();
                assert(s1.is_open(cur));
                assert(s2.is_open(cur));
                assert(payload == Operand::Inst(s0.cur, n as usize));
                assert(record == Operand::Inst(s0.cur, (n + 1) as usize));
                assert(r == Operand::Inst(s0.cur, (n + 2) as usize));
                assert(self.cur_view() =~= old(self).cur_view() + seq![
                    InstV::FieldAddr(LType::Of(enum_ty), base, 0),
                    InstV::Reinterpret(at(old(self).cur, old(self).cur_len()), LType::VariantRecord(enum_ty, k)),
                    InstV::FieldAddr(LType::VariantRecord(enum_ty, k), at(old(self).cur, old(self).cur_len() + 1), i),
                ]);
                assert(self.func.blocks@[cur].insts@ =~= old(self).func.blocks@[cur].insts@ + seq![
                    Inst::FieldAddr(LType::Of(enum_ty), base, 0),
                    Inst::Reinterpret(payload, LType::VariantRecord(enum_ty, k)),
                    Inst::FieldAddr(LType::VariantRecord(enum_ty, k), record, i),
                ]);
                let before = old(self).func.blocks@[cur].insts@;
                assert(variant_field_path(before, self.func.blocks@[cur].insts@, old(self).cur, enum_ty, base, k, i, r));
            }
        }
        r
    }

    /// The address of an lvalue: a local, a pointer or aggregate parameter,
    /// a dereference, an element, a field, an enum argument or a function.
    #[verifier::rlimit(100)]
    #[verifier::spinoff_prover]
    pub fn lower_place(&mut self, m: &Module, params: &Vec<TypeId>, e: &Expr) -> (r: Result<Operand, LowerError>)
        requires
            old(self).wf(),
            context_valid(m, params),
        ensures
            final(self).wf(),
            old(self).same_shape(*final(self)),
            r is Ok && old(self).is_open(old(self).cur as int) && e.kind is EnumField ==> ends_in_variant_field(
                final(self).func.blocks@[old(self).cur as int].insts@,
                old(self).cur,
                e.kind->EnumField_0.ty,
                e.kind->EnumField_1,
                e.kind->EnumField_2,
                r->Ok_0,
            ),
            r is Ok <==> place_ok(*m, old(self).func.locals@.len(), params@, *e),
            r is Ok && old(self).is_open(old(self).cur as int) ==> final(self).cur_view() == old(self).cur_view() + place_low(*m, params@, old(self).cur, old(self).cur_len(), *e).0 && r->Ok_0 == place_low(*m, params@, old(self).cur, old(self).cur_len(), *e).1,
        decreases e, 0int,
    {
        match &e.kind {
            ExprKind::Local(i) => {
                if *i < self.func.locals.len() {
                    Ok(Operand::Local(*i))
                } else {
                    Err(LowerError::BadReference)
                }
            },
            ExprKind::Param(i) => {
                let t = type_at(m, e.ty)?;
                match t {
                    Type::Pointer(_) => {},
                    _ => {
                        if t.kind() != TypeKind::Aggregate {
                            return Err(LowerError::NotAPlace);
                        }
                    },
                }
                self.param(m, params, *i)
            },
            ExprKind::Index(p, i) => {
                let (elem, base) = match type_at(m, p.ty)? {
                    Type::Pointer(t) => (*t, self.lower_scalar(m, params, p)?),
                    Type::Array(t, _) => (*t, self.lower_place(m, params, p)?),
                    _ => return Err(LowerError::NotAPlace),
                };
                let idx = self.lower_scalar(m, params, i)?;
                let r = self.emit(Inst::ElemAddr(LType::Of(elem), base, idx));
                proof {
                    if old(self).is_open(old(self).cur as int) {
                        assert(self.cur_view() =~= old(self).cur_view() + place_low(*m, params@, old(self).cur, old(self).cur_len(), *e).0);
                    }
                }
                Ok(r)
            },
            ExprKind::Field(x, i) => {
                let (record, base) = match type_at(m, x.ty)? {
                    Type::Tuple(_) | Type::Struct(_) => (x.ty, self.lower_place(m, params, x)?),
                    Type::Pointer(t) => {
                        match type_at(m, *t)? {
                            Type::Tuple(_) | Type::Struct(_) => {},
                            _ => return Err(LowerError::NotARecord),
                        }
                        (*t, self.lower_scalar(m, params, x)?)
                    },
                    _ => return Err(LowerError::NotARecord),
                };
                let r = self.emit(Inst::FieldAddr(LType::Of(record), base, *i));
                proof {
                    if old(self).is_open(old(self).cur as int) {
                        assert(self.cur_view() =~= old(self).cur_view() + place_low(*m, params@, old(self).cur, old(self).cur_len(), *e).0);
                    }
                }
                Ok(r)
            },
            ExprKind::Unary(Unop::Deref, p) => self.lower_scalar(m, params, p),
            ExprKind::Func(i) => {
                if *i < m.func_decls.len() {
                    Ok(Operand::Func(*i))
                } else {
                    Err(LowerError::BadReference)
                }
            },
            ExprKind::EnumField(x, k, i) => {
                match type_at(m, x.ty)? {
                    Type::Enum(et) => {
                        if *k as usize >= et.variants.len() {
                            return Err(LowerError::BadReference);
                        }
                    },
                    _ => return Err(LowerError::NotAnEnum),
                }
                let base = self.lower_place(m, params, x)?;
                let r = self.variant_field_addr(x.ty, base, *k, *i);
                proof {
                    if old(self).is_open(old(self).cur as int) {
                        assert(self.cur_view() =~= old(self).cur_view() + place_low(*m, params@, old(self).cur, old(self).cur_len(), *e).0);
                    }
                }
                Ok(r)
            },
            _ => Err(LowerError::NotAPlace),
        }
    }

    /// Lowers a call, with `sret` as the trailing argument where the callee
    /// returns an aggregate; gives the call's result.
    #[verifier::rlimit(100)]
    #[verifier::spinoff_prover]
    pub fn lower_call(&mut self, m: &Module, params: &Vec<TypeId>, e: &Expr, sret: Option<Operand>) -> (r: Result<Operand, LowerError>)
        requires
            old(self).wf(),
            context_valid(m, params),
        ensures
            final(self).wf(),
            old(self).same_shape(*final(self)),
            r is Ok && old(self).is_open(old(self).cur as int) ==> e.kind is Call && call_shape(
                final(self).func.blocks@[old(self).cur as int].insts@.last(),
                valued_count(m.types@, e.kind->Call_1@),
                sret,
            ),
            r is Ok <==> call_ok(*m, old(self).func.locals@.len(), params@, *e),
            r is Ok && old(self).is_open(old(self).cur as int) ==> final(self).cur_view() == old(self).cur_view() + call_low(*m, params@, old(self).cur, old(self).cur_len(), *e, sret).0 && r->Ok_0 == call_low(*m, params@, old(self).cur, old(self).cur_len(), *e, sret).1,
        decreases e, 0int,
    {
        let (func, args) = match &e.kind {
            ExprKind::Call(func, args) => (func, args),
            _ => return Err(LowerError::NotCallable),
        };
        let fnty = match type_at(m, func.ty)? {
            Type::Func(_) => func.ty,
            Type::Pointer(t) => *t,
            _ => return Err(LowerError::NotCallable),
        };
        match type_at(m, fnty)? {
            Type::Func(_) => {},
            _ => return Err(LowerError::NotCallable),
        }
        let callee = self.lower_scalar(m, params, func)?;
        let ghost open = old(self).is_open(old(self).cur as int);
        let ghost s1 = *self;
        let ghost n1 = s1.cur_len();
        let mut machine_args: Vec<Operand> = Vec::new();
        let mut i: usize = 0;
        while i < args.len()
            invariant
                self.wf(),
                old(self).same_shape(*self),
                context_valid(m, params),
                e.kind == ExprKind::Call(*func, *args),
                i <= args@.len(),
                open == old(self).is_open(old(self).cur as int),
                open ==> n1 == old(self).cur_len() + scalar_low(*m, params@, old(self).cur, old(self).cur_len(), **func).0.len(),
                open ==> self.cur_view() == s1.cur_view() + args_low(*m, params@, old(self).cur, n1, *e, i as int).0,
                open ==> machine_args@ == args_low(*m, params@, old(self).cur, n1, *e, i as int).1,
                open ==> s1.cur_view() == old(self).cur_view() + scalar_low(*m, params@, old(self).cur, old(self).cur_len(), **func).0,
                forall|j: int| 0 <= j < i ==> expr_ok(*m, old(self).func.locals@.len(), params@, #[trigger] args@[j]),
                machine_args@.len() == valued_count(m.types@, args@.take(i as int)),
            decreases args@.len() - i,
        {
            proof {
                assert(decreases_to!(*e => e.kind));
                assert(decreases_to!(e.kind => e.kind->Call_1));
                assert(decreases_to!(*args => args@));
                assert(decreases_to!(args@ => args@[i as int]));
                assert(decreases_to!(*e => args@[i as int]));
            }
            assert(args@.take(i as int + 1).drop_last() == args@.take(i as int));
            let ghost before = *self;
            match self.lower_expr(m, params, &args[i], None)? {
                Value::Unit => {},
                Value::Aggregate(p) => machine_args.push(p),
                Value::Scalar(v) => machine_args.push(v),
            }
            proof {
                if open {
                    assert(self.cur_view() =~= s1.cur_view() + args_low(*m, params@, old(self).cur, n1, *e, i as int + 1).0);
                }
            }
            i = i + 1;
        }
        assert(args@.take(args@.len() as int) == args@);
        if let Some(dst) = sret {
            machine_args.push(dst);
        }
        let ghost s2 = *self;
        let r = self.emit(Inst::Call(fnty, callee, machine_args));
        proof {
            if open {
                assert(self.cur_view() =~= old(self).cur_view() + call_low(*m, params@, old(self).cur, old(self).cur_len(), *e, sret).0);
            }
        }
        Ok(r)
    }

    /// Evaluates a unit expression for its effects.
    pub fn lower_unit(&mut self, m: &Module, params: &Vec<TypeId>, e: &Expr) -> (r: Result<(), LowerError>)
        requires
            old(self).wf(),
            context_valid(m, params),
        ensures
            final(self).wf(),
            old(self).same_shape(*final(self)),
            r is Ok <==> unit_ok(*m, old(self).func.locals@.len(), params@, *e),
            r is Ok && old(self).is_open(old(self).cur as int) ==> final(self).cur_view() == old(self).cur_view() + unit_low(*m, params@, old(self).cur, old(self).cur_len(), *e),
        decreases e, 1int,
    {
        match &e.kind {
            ExprKind::Unit => Ok(()),
            ExprKind::Call(_, _) => {
                let _ = self.lower_call(m, params, e, None)?;
                Ok(())
            },
            _ => Err(LowerError::NotUnit),
        }
    }

    /// Copies a value of type `ty` from one address to another.
    pub fn copy(&mut self, m: &Module, ty: TypeId, src: Operand, dst: Operand) -> (r: Result<(), LowerError>)
        requires
            old(self).wf(),
        ensures
            final(self).wf(),
            old(self).same_shape(*final(self)),
            r is Ok <==> ty < m.types@.len(),
            r is Ok && old(self).is_open(old(self).cur as int) ==> final(self).cur_view() == old(self).cur_view() + copy_low(*m, old(self).cur, old(self).cur_len(), ty, src, dst),
    {
        if type_at(m, ty)?.kind() != TypeKind::Unit {
            let v = self.emit(Inst::Load(LType::Of(ty), src));
            let _ = self.emit(Inst::Store(v, dst));
        }
        Ok(())
    }

    /// Writes an aggregate value into the storage at `dst`, constituent by
    /// constituent.
    #[verifier::rlimit(100)]
    #[verifier::spinoff_prover]
    pub fn lower_aggregate(&mut self, m: &Module, params: &Vec<TypeId>, e: &Expr, dst: Operand) -> (r: Result<(), LowerError>)
        requires
            old(self).wf(),
            context_valid(m, params),
        ensures
            final(self).wf(),
            old(self).same_shape(*final(self)),
            r is Ok && old(self).is_open(old(self).cur as int) && e.kind is EnumCall ==> tag_stored(
                m.types@,
                e.ty,
                dst,
                e.kind->EnumCall_0,
                old(self).cur,
                old(self).func.blocks@[old(self).cur as int].insts@.len() as int,
                final(self).func.blocks@[old(self).cur as int].insts@,
            ),
            r is Ok && old(self).is_open(old(self).cur as int) && e.kind is Struct ==> exists|pos: Seq<int>| fields_written(
                m.types@,
                final(self).func.blocks@[old(self).cur as int].insts@,
                old(self).func.blocks@[old(self).cur as int].insts@.len() as int,
                old(self).cur,
                e.ty,
                dst,
                e.kind->Struct_0@,
                pos,
            ),
            r is Ok <==> aggregate_ok(*m, old(self).func.locals@.len(), params@, *e),
            r is Ok && old(self).is_open(old(self).cur as int) ==> final(self).cur_view() == old(self).cur_view() + agg_low(*m, params@, old(self).cur, old(self).cur_len(), *e, dst),
        decreases e, 1int,
    {
        match &e.kind {
            ExprKind::Tuple(elems) => {
                let ghost open = old(self).is_open(old(self).cur as int);
                let mut i: usize = 0;
                while i < elems.len()
                    invariant
                        self.wf(),
                        old(self).same_shape(*self),
                        context_valid(m, params),
                        e.kind == ExprKind::Tuple(*elems),
                        i <= elems@.len(),
                        open == old(self).is_open(old(self).cur as int),
                        open ==> self.cur_view() == old(self).cur_view() + members_low(*m, params@, old(self).cur, old(self).cur_len(), *e, dst, i as int),
                        i <= 0x1_0000_0000,
                        forall|j: int| 0 <= j < i ==> expr_ok(*m, old(self).func.locals@.len(), params@, #[trigger] elems@[j]),
                    decreases elems@.len() - i,
                {
                    proof {
                        assert(decreases_to!(*e => e.kind));
                        assert(decreases_to!(e.kind => e.kind->Tuple_0));
                        assert(decreases_to!(*elems => elems@));
                        assert(decreases_to!(elems@ => elems@[i as int]));
                        assert(decreases_to!(*e => elems@[i as int]));
                    }
                    if i > u32::MAX as usize {
                        return Err(LowerError::BadReference);
                    }
                    let at = self.emit(Inst::FieldAddr(LType::Of(e.ty), dst, i as u32));
                    let _ = self.lower_expr(m, params, &elems[i], Some(at))?;
                    proof {
                        if open {
                            assert(self.cur_view() =~= old(self).cur_view() + members_low(*m, params@, old(self).cur, old(self).cur_len(), *e, dst, i as int + 1));
                        }
                    }
                    i = i + 1;
                }
                Ok(())
            },
            ExprKind::Struct(_) => self.lower_struct_lit(m, params, e, dst),
            ExprKind::Array(elems) => {
                let ghost open = old(self).is_open(old(self).cur as int);
                let mut i: usize = 0;
                while i < elems.len()
                    invariant
                        self.wf(),
                        old(self).same_shape(*self),
                        context_valid(m, params),
                        e.kind == ExprKind::Array(*elems),
                        i <= elems@.len(),
                        open == old(self).is_open(old(self).cur as int),
                        open ==> self.cur_view() == old(self).cur_view() + members_low(*m, params@, old(self).cur, old(self).cur_len(), *e, dst, i as int),
                        i <= 0x1_0000_0000,
                        forall|j: int| 0 <= j < i ==> expr_ok(*m, old(self).func.locals@.len(), params@, #[trigger] elems@[j]),
                    decreases elems@.len() - i,
                {
                    proof {
                        assert(decreases_to!(*e => e.kind));
                        assert(decreases_to!(e.kind => e.kind->Array_0));
                        assert(decreases_to!(*elems => elems@));
                        assert(decreases_to!(elems@ => elems@[i as int]));
                        assert(decreases_to!(*e => elems@[i as int]));
                    }
                    if i > u32::MAX as usize {
                        return Err(LowerError::BadReference);
                    }
                    let at = self.emit(Inst::ArrayElemAddr(e.ty, dst, i as u32));
                    let _ = self.lower_expr(m, params, &elems[i], Some(at))?;
                    proof {
                        if open {
                            assert(self.cur_view() =~= old(self).cur_view() + members_low(*m, params@, old(self).cur, old(self).cur_len(), *e, dst, i as int + 1));
                        }
                    }
                    i = i + 1;
                }
                Ok(())
            },
            ExprKind::Call(_, _) => {
                let _ = self.lower_call(m, params, e, Some(dst))?;
                Ok(())
            },
            ExprKind::Param(i) => {
                let src = self.param(m, params, *i)?;
                self.copy(m, e.ty, src, dst)
            },
            ExprKind::Unary(Unop::Deref, p) => {
                let src = self.lower_scalar(m, params, p)?;
                let r = self.copy(m, e.ty, src, dst);
                proof {
                    if r is Ok && old(self).is_open(old(self).cur as int) {
                        assert(self.cur_view() =~= old(self).cur_view() + agg_low(*m, params@, old(self).cur, old(self).cur_len(), *e, dst));
                    }
                }
                r
            },
            ExprKind::EnumCall(_, _) => self.lower_enum_call(m, params, e, dst),
            ExprKind::Field(_, _) | ExprKind::Index(_, _) | ExprKind::Local(_) => {
                let src = self.lower_place(m, params, e)?;
                let r = self.copy(m, e.ty, src, dst);
                proof {
                    if r is Ok && old(self).is_open(old(self).cur as int) {
                        assert(self.cur_view() =~= old(self).cur_view() + agg_low(*m, params@, old(self).cur, old(self).cur_len(), *e, dst));
                    }
                }
                r
            },
            _ => Err(LowerError::NotAggregate),
        }
    }

    /// Lowers a scalar expression to an immediate value.
    #[verifier::rlimit(100)]
    #[verifier::spinoff_prover]
    pub fn lower_scalar(&mut self, m: &Module, params: &Vec<TypeId>, e: &Expr) -> (r: Result<Operand, LowerError>)
        requires
            old(self).wf(),
            context_valid(m, params),
        ensures
            final(self).wf(),
            old(self).same_shape(*final(self)),
            r is Ok && old(self).is_open(old(self).cur as int) && e.kind is EnumTag ==> tag_loaded(
                m.types@,
                e.kind->EnumTag_0.ty,
                old(self).cur,
                final(self).func.blocks@[old(self).cur as int].insts@,
                r->Ok_0,
            ),
            r is Ok <==> scalar_ok(*m, old(self).func.locals@.len(), params@, *e),
            r is Ok && old(self).is_open(old(self).cur as int) ==> final(self).cur_view() == old(self).cur_view() + scalar_low(*m, params@, old(self).cur, old(self).cur_len(), *e).0 && r->Ok_0 == scalar_low(*m, params@, old(self).cur, old(self).cur_len(), *e).1,
        decreases e, 1int,
    {
        match &e.kind {
            ExprKind::Index(_, _) | ExprKind::Field(_, _) | ExprKind::EnumField(_, _, _) => {
                let p = self.lower_place(m, params, e)?;
                let r = self.emit(Inst::Load(LType::Of(e.ty), p));
                proof {
                    if old(self).is_open(old(self).cur as int) {
                        assert(self.cur_view() =~= old(self).cur_view() + scalar_low(*m, params@, old(self).cur, old(self).cur_len(), *e).0);
                    }
                }
                Ok(r)
            },
            ExprKind::Float(s) => Ok(self.emit(Inst::Real(e.ty, s.clone()))),
            ExprKind::Integer(s) => Ok(self.emit(Inst::Digits(e.ty, s.clone()))),
            ExprKind::Local(i) => {
                if *i >= self.func.locals.len() {
                    return Err(LowerError::BadReference);
                }
                Ok(self.emit(Inst::Load(LType::Of(e.ty), Operand::Local(*i))))
            },
            ExprKind::Param(i) => self.param(m, params, *i),
            ExprKind::Func(i) => {
                if *i < m.func_decls.len() {
                    Ok(Operand::Func(*i))
                } else {
                    Err(LowerError::BadReference)
                }
            },
            ExprKind::Binary(_, _, _) => self.lower_binary(m, params, e),
            ExprKind::String(lit) => {
                if lit.len() < 2 {
                    return Err(LowerError::BadLiteral);
                }
                Ok(self.emit(Inst::GlobalString(unescape(lit))))
            },
            ExprKind::Call(_, _) => self.lower_call(m, params, e, None),
            ExprKind::Cast(_, _) => self.lower_cast(m, params, e),
            ExprKind::Bool(b) => Ok(Operand::Int(LType::Int(1), if *b { 1 } else { 0 })),
            ExprKind::Unary(Unop::AddressOf, x) => self.lower_place(m, params, x),
            ExprKind::Unary(Unop::Deref, p) => {
                let q = self.lower_scalar(m, params, p)?;
                let r = self.emit(Inst::Load(LType::Of(e.ty), q));
                proof {
                    if old(self).is_open(old(self).cur as int) {
                        assert(self.cur_view() =~= old(self).cur_view() + scalar_low(*m, params@, old(self).cur, old(self).cur_len(), *e).0);
                    }
                }
                Ok(r)
            },
            ExprKind::Sizeof(t) => {
                let _ = type_at(m, *t)?;
                Ok(Operand::SizeOf(*t))
            },
            ExprKind::Const(i) => {
                if *i < m.consts.len() {
                    Ok(Operand::Const(*i))
                } else {
                    Err(LowerError::BadReference)
                }
            },
            ExprKind::Null => Ok(Operand::Null(e.ty)),
            ExprKind::Char(c) => Ok(Operand::Int(LType::Of(e.ty), *c as u64)),
            ExprKind::EnumVariant(k) => match type_at(m, e.ty)? {
                Type::I8 => Ok(Operand::Int(LType::Of(e.ty), *k as u64)),
                _ => Err(LowerError::NotScalar),
            },
            ExprKind::EnumTag(_) => self.lower_enum_tag(m, params, e),
            _ => Err(LowerError::NotScalar),
        }
    }

    /// Lowers an expression by its classification. A scalar is also stored
    /// at `dst` if given; an aggregate is written to `dst`, or to fresh
    /// storage, whose address is the result; a unit is only evaluated.
    pub fn lower_expr(&mut self, m: &Module, params: &Vec<TypeId>, e: &Expr, dst: Option<Operand>) -> (r: Result<Value, LowerError>)
        requires
            old(self).wf(),
            context_valid(m, params),
        ensures
            final(self).wf(),
            old(self).same_shape(*final(self)),
            r matches Ok(v) ==> e.ty < m.types@.len() && (v is Unit <==> kind_of(m.types@[e.ty as int]) == TypeKind::Unit) && (v is Scalar <==> kind_of(m.types@[e.ty as int]) == TypeKind::Scalar),
            r is Ok && r->Ok_0 is Scalar && dst is Some && old(self).is_open(old(self).cur as int) ==> {
                let insts = final(self).func.blocks@[old(self).cur as int].insts@;
                insts.len() > old(self).func.blocks@[old(self).cur as int].insts@.len() && insts.last() == Inst::Store(r->Ok_0->Scalar_0, dst->Some_0)
            },
            r is Ok <==> expr_ok(*m, old(self).func.locals@.len(), params@, *e),
            r is Ok && old(self).is_open(old(self).cur as int) ==> final(self).cur_view() == old(self).cur_view() + expr_low(*m, params@, old(self).cur, old(self).cur_len(), *e, dst).0 && r->Ok_0 == expr_low(*m, params@, old(self).cur, old(self).cur_len(), *e, dst).1,
        decreases e, 2int,
    {
        match type_at(m, e.ty)?.kind() {
            TypeKind::Unit => {
                self.lower_unit(m, params, e)?;
                Ok(Value::Unit)
            },
            TypeKind::Aggregate => {
                let p = match dst {
                    Some(p) => p,
                    None => self.emit(Inst::Alloca(LType::Of(e.ty))),
                };
                self.lower_aggregate(m, params, e, p)?;
                Ok(Value::Aggregate(p))
            },
            TypeKind::Scalar => {
                let v = self.lower_scalar(m, params, e)?;
                if let Some(d) = dst {
                    let _ = self.emit(Inst::Store(v, d));
                }
                Ok(Value::Scalar(v))
            },
        }
    }
}

impl FuncLowering {
    /// A struct literal: each field's member address, then its value stored there.
    #[verifier::rlimit(100)]
    #[verifier::spinoff_prover]
    fn lower_struct_lit(&mut self, m: &Module, params: &Vec<TypeId>, e: &Expr, dst: Operand) -> (r: Result<(), LowerError>)
        requires
            old(self).wf(),
            context_valid(m, params),
            e.kind is Struct,
        ensures
            final(self).wf(),
            old(self).same_shape(*final(self)),
            r is Ok && old(self).is_open(old(self).cur as int) && e.kind is EnumCall ==> tag_stored(
                m.types@,
                e.ty,
                dst,
                e.kind->EnumCall_0,
                old(self).cur,
                old(self).func.blocks@[old(self).cur as int].insts@.len() as int,
                final(self).func.blocks@[old(self).cur as int].insts@,
            ),
            r is Ok && old(self).is_open(old(self).cur as int) && e.kind is Struct ==> exists|pos: Seq<int>| fields_written(
                m.types@,
                final(self).func.blocks@[old(self).cur as int].insts@,
                old(self).func.blocks@[old(self).cur as int].insts@.len() as int,
                old(self).cur,
                e.ty,
                dst,
                e.kind->Struct_0@,
                pos,
            ),
            r is Ok <==> aggregate_ok(*m, old(self).func.locals@.len(), params@, *e),
            r is Ok && old(self).is_open(old(self).cur as int) ==> final(self).cur_view() == old(self).cur_view() + agg_low(*m, params@, old(self).cur, old(self).cur_len(), *e, dst),
        decreases e, 0int,
    {
        match &e.kind {
            ExprKind::Struct(fields) => {
                let ghost cur = self.cur as int;
                let ghost from = self.func.blocks@[cur].insts@.len() as int;
                let ghost open = self.is_open(cur);
                let ghost mut pos: Seq<int> = seq![];
                let mut i: usize = 0;
                while i < fields.len()
                    invariant
                        self.wf(),
                        old(self).same_shape(*self),
                        context_valid(m, params),
                        e.kind == ExprKind::Struct(*fields),
                        forall|j: int| 0 <= j < i ==> expr_ok(*m, old(self).func.locals@.len(), params@, (#[trigger] fields@[j]).1),
                        cur == old(self).cur,
                        from == old(self).func.blocks@[cur].insts@.len(),
                        open == old(self).is_open(cur),
                        i <= fields@.len(),
                        open ==> fields_written(m.types@, self.func.blocks@[cur].insts@, from, self.cur, e.ty, dst, fields@.take(i as int), pos),
                        open ==> self.cur_view() == old(self).cur_view() + members_low(*m, params@, old(self).cur, old(self).cur_len(), *e, dst, i as int),
                    decreases fields@.len() - i,
                {
                    proof {
                        assert(decreases_to!(*e => e.kind));
                        assert(decreases_to!(e.kind => e.kind->Struct_0));
                        assert(decreases_to!(*fields => fields@));
                        assert(decreases_to!(fields@ => fields@[i as int]));
                        assert(decreases_to!(*e => fields@[i as int]));
                    }
                    let (f, value) = &fields[i];
                    let ghost s0 = *self;
                    let at = self.emit(Inst::FieldAddr(LType::Of(e.ty), dst, *f));
                    let ghost s1 = *self;
                    let v = self.lower_expr(m, params, value, Some(at));
                    proof {
                        if open && v is Ok {
                            let old_insts = s0.func.blocks@[cur].insts@;
                            let mid = s1.func.blocks@[cur].insts@;
                            let insts = self.func.blocks@[cur].insts@;
                            let p = old_insts.len() as int;
                            let pos2 = pos.push(p);
                            let fs = fields@.take(i as int + 1);
                            assert(fs.take(i as int) =~= fields@.take(i as int));
                            assert(mid[p] == Inst::FieldAddr(LType::Of(e.ty), dst, *f));
                            assert(insts[p] == mid[p]);
                            assert forall|j: int| 0 <= j < pos.len() implies insts[#[trigger] pos[j]] == old_insts[pos[j]] by {
                                assert(mid[pos[j]] == old_insts[pos[j]]);
                            }
                            assert forall|j: int| 0 <= j < pos2.len() implies insts[#[trigger] pos2[j]] == Inst::FieldAddr(LType::Of(e.ty), dst, fs[j].0) by {
                                if j < pos.len() {
                                    assert(pos2[j] == pos[j]);
                                }
                            }
                            assert forall|j: int|
                                0 <= j < pos2.len() && kind_of(m.types@[fs[j].1.ty as int]) == TypeKind::Scalar implies exists|q: int|
                                    pos2[j] < q < (if j + 1 < pos2.len() { pos2[j + 1] } else { insts.len() as int }) && #[trigger] insts[q] == Inst::Store(
                                        insts[q]->Store_0,
                                        Operand::Inst(self.cur, pos2[j] as usize),
                                    ) by {
                                if j < pos.len() {
                                    let q = choose|q: int|
                                        pos[j] < q < (if j + 1 < pos.len() { pos[j + 1] } else { old_insts.len() as int }) && #[trigger] old_insts[q] == Inst::Store(
                                            old_insts[q]->Store_0,
                                            Operand::Inst(self.cur, pos[j] as usize),
                                        );
                                    assert(mid[q] == old_insts[q]);
                                    assert(insts[q] == old_insts[q]);
                                } else {
                                    let q = insts.len() - 1;
                                    assert(at == Operand::Inst(s0.cur, p as usize));
                                    assert(fs[j].1 == *value);
                                    assert(insts[q] == Inst::Store(insts[q]->Store_0, Operand::Inst(self.cur, p as usize)));
                                }
                            }
                            pos = pos2;
                        }
                    }
                    let _ = v?;
                    proof {
                        if open {
                            assert(self.cur_view() =~= old(self).cur_view() + members_low(*m, params@, old(self).cur, old(self).cur_len(), *e, dst, i as int + 1));
                        }
                    }
                    i = i + 1;
                }
                assert(fields@.take(fields@.len() as int) =~= fields@);
                Ok(())
            },
            _ => Err(LowerError::NotAggregate),
        }
    }

    /// An enum construction: the tag, then each argument in the variant's record.
    #[verifier::rlimit(100)]
    #[verifier::spinoff_prover]
    fn lower_enum_call(&mut self, m: &Module, params: &Vec<TypeId>, e: &Expr, dst: Operand) -> (r: Result<(), LowerError>)
        requires
            old(self).wf(),
            context_valid(m, params),
            e.kind is EnumCall,
        ensures
            final(self).wf(),
            old(self).same_shape(*final(self)),
            r is Ok && old(self).is_open(old(self).cur as int) && e.kind is EnumCall ==> tag_stored(
                m.types@,
                e.ty,
                dst,
                e.kind->EnumCall_0,
                old(self).cur,
                old(self).func.blocks@[old(self).cur as int].insts@.len() as int,
                final(self).func.blocks@[old(self).cur as int].insts@,
            ),
            r is Ok && old(self).is_open(old(self).cur as int) && e.kind is Struct ==> exists|pos: Seq<int>| fields_written(
                m.types@,
                final(self).func.blocks@[old(self).cur as int].insts@,
                old(self).func.blocks@[old(self).cur as int].insts@.len() as int,
                old(self).cur,
                e.ty,
                dst,
                e.kind->Struct_0@,
                pos,
            ),
            r is Ok <==> aggregate_ok(*m, old(self).func.locals@.len(), params@, *e),
            r is Ok && old(self).is_open(old(self).cur as int) ==> final(self).cur_view() == old(self).cur_view() + agg_low(*m, params@, old(self).cur, old(self).cur_len(), *e, dst),
        decreases e, 0int,
    {
        match &e.kind {
            ExprKind::EnumCall(k, args) => {
                let et = match type_at(m, e.ty)? {
                    Type::Enum(et) => et,
                    _ => return Err(LowerError::NotAnEnum),
                };
                if *k as usize >= et.variants.len() {
                    return Err(LowerError::BadReference);
                }
                let tag_at = self.emit(Inst::FieldAddr(LType::Of(e.ty), dst, tag_index(et)));
                let _ = self.emit(Inst::Store(Operand::Int(LType::Int(8), *k as u64), tag_at));
                let ghost s1 = *self;
                let ghost open = old(self).is_open(old(self).cur as int);
                proof {
                    let cur = old(self).cur as int;
                    if old(self).is_open(cur) {
                        assert(s1.cur_view() =~= old(self).cur_view() + seq![
                            InstV::FieldAddr(LType::Of(e.ty), dst, tag_field(*et)),
                            InstV::Store(Operand::Int(LType::Int(8), *k as u64), at(old(self).cur, old(self).cur_len())),
                        ]);
                        assert(tag_stored(m.types@, e.ty, dst, *k, old(self).cur, old(self).func.blocks@[cur].insts@.len() as int, s1.func.blocks@[cur].insts@));
                    }
                }
                let mut i: usize = 0;
                while i < args.len()
                    invariant
                        self.wf(),
                        old(self).same_shape(*self),
                        context_valid(m, params),
                        e.kind == ExprKind::EnumCall(*k, *args),
                        i <= args@.len(),
                        i <= 0x1_0000_0000,
                        forall|j: int| 0 <= j < i ==> expr_ok(*m, old(self).func.locals@.len(), params@, #[trigger] args@[j]),
                        s1.same_shape(*self),
                        old(self).cur == s1.cur,
                        open == old(self).is_open(old(self).cur as int),
                        open ==> s1.cur_view() == old(self).cur_view() + seq![
                            InstV::FieldAddr(LType::Of(e.ty), dst, tag_field(*et)),
                            InstV::Store(Operand::Int(LType::Int(8), *k as u64), at(old(self).cur, old(self).cur_len())),
                        ],
                        open ==> self.cur_view() == s1.cur_view() + members_low(*m, params@, old(self).cur, old(self).cur_len() + 2, *e, dst, i as int),
                    decreases args@.len() - i,
                {
                    proof {
                        assert(decreases_to!(*e => e.kind));
                        assert(decreases_to!(e.kind => e.kind->EnumCall_1));
                        assert(decreases_to!(*args => args@));
                        assert(decreases_to!(args@ => args@[i as int]));
                        assert(decreases_to!(*e => args@[i as int]));
                    }
                    if i > u32::MAX as usize {
                        return Err(LowerError::BadReference);
                    }
                    let at = self.variant_field_addr(e.ty, dst, *k, i as u32);
                    let _ = self.lower_expr(m, params, &args[i], Some(at))?;
                    proof {
                        if open {
                            assert(self.cur_view() =~= s1.cur_view() + members_low(*m, params@, old(self).cur, old(self).cur_len() + 2, *e, dst, i as int + 1));
                        }
                    }
                    i = i + 1;
                }
                proof {
                    let cur = old(self).cur as int;
                    if old(self).is_open(cur) {
                        let at = old(self).func.blocks@[cur].insts@.len() as int;
                        assert(self.func.blocks@[cur].insts@[at] == s1.func.blocks@[cur].insts@[at]);
                        assert(self.func.blocks@[cur].insts@[at + 1] == s1.func.blocks@[cur].insts@[at + 1]);
                        assert(self.cur_view() =~= old(self).cur_view() + agg_low(*m, params@, old(self).cur, old(self).cur_len(), *e, dst));
                    }
                }
                Ok(())
            },
            _ => Err(LowerError::NotAggregate),
        }
    }

}

impl FuncLowering {
    /// A binary operator: both operands, then the operation that
    /// `binary_lowering` selects for the left operand's kind.
    #[verifier::rlimit(100)]
    #[verifier::spinoff_prover]
    fn lower_binary(&mut self, m: &Module, params: &Vec<TypeId>, e: &Expr) -> (r: Result<Operand, LowerError>)
        requires
            old(self).wf(),
            context_valid(m, params),
            e.kind is Binary,
        ensures
            final(self).wf(),
            old(self).same_shape(*final(self)),
            r is Ok <==> scalar_ok(*m, old(self).func.locals@.len(), params@, *e),
            r is Ok && old(self).is_open(old(self).cur as int) ==> final(self).cur_view() == old(self).cur_view() + scalar_low(*m, params@, old(self).cur, old(self).cur_len(), *e).0 && r->Ok_0 == scalar_low(*m, params@, old(self).cur, old(self).cur_len(), *e).1,
        decreases e, 0int,
    {
        let (op, x, y) = match &e.kind {
            ExprKind::Binary(op, x, y) => (op, x, y),
            _ => return Err(LowerError::NotScalar),
        };
        let kind = match type_at(m, x.ty)?.scalar_kind() {
            Some(k) => k,
            None => return Err(LowerError::NotScalar),
        };
        let lowering = match select_binary(*op, kind) {
            Some(l) => l,
            None => return Err(LowerError::UnsupportedOperator),
        };
        let xv = self.lower_scalar(m, params, x)?;
        let yv = self.lower_scalar(m, params, y)?;
        let inst = match lowering {
            BinaryLowering::Arith(a) => Inst::Arith(a, xv, yv),
            BinaryLowering::PointerOffset => match type_at(m, e.ty)? {
                Type::Pointer(t) => Inst::ElemAddr(LType::Of(*t), xv, yv),
                _ => return Err(LowerError::UnsupportedOperator),
            },
            BinaryLowering::PointerDiff => match type_at(m, x.ty)? {
                Type::Pointer(t) => Inst::PointerDiff(LType::Of(*t), xv, yv),
                _ => return Err(LowerError::UnsupportedOperator),
            },
            BinaryLowering::IntCompare(p) => Inst::IntCompare(p, xv, yv),
            BinaryLowering::RealCompare(p) => Inst::RealCompare(p, xv, yv),
        };
        let r = self.emit(inst);
        proof {
            if old(self).is_open(old(self).cur as int) {
                assert(self.cur_view() =~= old(self).cur_view() + scalar_low(*m, params@, old(self).cur, old(self).cur_len(), *e).0);
            }
        }
        Ok(r)
    }

    /// A cast: the operand, then the conversion that `cast_lowering`
    /// selects; an identity cast gives the operand itself.
    fn lower_cast(&mut self, m: &Module, params: &Vec<TypeId>, e: &Expr) -> (r: Result<Operand, LowerError>)
        requires
            old(self).wf(),
            context_valid(m, params),
            e.kind is Cast,
        ensures
            final(self).wf(),
            old(self).same_shape(*final(self)),
            r is Ok <==> scalar_ok(*m, old(self).func.locals@.len(), params@, *e),
            r is Ok && old(self).is_open(old(self).cur as int) ==> final(self).cur_view() == old(self).cur_view() + scalar_low(*m, params@, old(self).cur, old(self).cur_len(), *e).0 && r->Ok_0 == scalar_low(*m, params@, old(self).cur, old(self).cur_len(), *e).1,
        decreases e, 0int,
    {
        let (x, ty) = match &e.kind {
            ExprKind::Cast(x, ty) => (x, ty),
            _ => return Err(LowerError::NotScalar),
        };
        let op = match select_cast(type_at(m, x.ty)?, type_at(m, *ty)?) {
            Some(op) => op,
            None => return Err(LowerError::UnsupportedCast),
        };
        let v = self.lower_scalar(m, params, x)?;
        match op {
            CastOp::Identity => Ok(v),
            _ => {
                let r = self.emit(Inst::Convert(op, v, *ty));
                proof {
            if old(self).is_open(old(self).cur as int) {
                assert(self.cur_view() =~= old(self).cur_view() + scalar_low(*m, params@, old(self).cur, old(self).cur_len(), *e).0);
            }
        }
                Ok(r)
            },
        }
    }

    /// The tag of an enum place: the place, the address of its tag member,
    /// and a one-byte load from it.
    fn lower_enum_tag(&mut self, m: &Module, params: &Vec<TypeId>, e: &Expr) -> (r: Result<Operand, LowerError>)
        requires
            old(self).wf(),
            context_valid(m, params),
            e.kind is EnumTag,
        ensures
            final(self).wf(),
            old(self).same_shape(*final(self)),
            r is Ok <==> scalar_ok(*m, old(self).func.locals@.len(), params@, *e),
            r is Ok && old(self).is_open(old(self).cur as int) ==> final(self).cur_view() == old(self).cur_view() + scalar_low(*m, params@, old(self).cur, old(self).cur_len(), *e).0 && r->Ok_0 == scalar_low(*m, params@, old(self).cur, old(self).cur_len(), *e).1,
            r is Ok && old(self).is_open(old(self).cur as int) ==> tag_loaded(
                m.types@,
                e.kind->EnumTag_0.ty,
                old(self).cur,
                final(self).func.blocks@[old(self).cur as int].insts@,
                r->Ok_0,
            ),
        decreases e, 0int,
    {
        let en = match &e.kind {
            ExprKind::EnumTag(en) => en,
            _ => return Err(LowerError::NotScalar),
        };
        let et = match type_at(m, en.ty)? {
            Type::Enum(et) => et,
            _ => return Err(LowerError::NotAnEnum),
        };
        let p = self.lower_place(m, params, en)?;
        let tag_at = self.emit(Inst::FieldAddr(LType::Of(en.ty), p, tag_index(et)));
        let r = self.emit(Inst::Load(LType::Int(8), tag_at));
        proof {
            if old(self).is_open(old(self).cur as int) {
                assert(self.cur_view() =~= old(self).cur_view() + scalar_low(*m, params@, old(self).cur, old(self).cur_len(), *e).0);
            }
        }
        Ok(r)
    }
}

/// Each block that `t` may jump to was created at or after position `lo`, or
/// is one of `targets`.
pub open spec fn jumps_fresh(t: Term, lo: int, targets: Set<usize>) -> bool {
    match t {
        Term::Br(x) => x >= lo || targets.contains(x),
        Term::CondBr(_, a, b) => (a >= lo || targets.contains(a)) && (b >= lo || targets.contains(b)),
        _ => true,
    }
}

/// The statements end in one that leaves the current block for good.
pub open spec fn ends_in_exit(stmts: Seq<Stmt>) -> bool {
    stmts.len() > 0 && (stmts.last() is Return || stmts.last() is Break || stmts.last() is Continue)
}

impl FuncLowering {
    /// The exits and next-iteration blocks of the enclosing loops.
    pub open spec fn loop_targets(self) -> Set<usize> {
        Set::new(|x: usize| self.break_dest@.contains(x) || self.continue_dest@.contains(x))
    }

    /// What lowering a statement keeps: blocks are only added, a terminator
    /// once set stays, and the loop stacks, the return slot and the locals
    /// are as they were.
    pub open spec fn grows(self, o: Self) -> bool {
        &&& self.n_blocks() <= o.n_blocks()
        &&& forall|b: int| 0 <= b < self.n_blocks() && !self.is_open(b) ==> (#[trigger] o.func.blocks@[b]) == self.func.blocks@[b]
        &&& o.break_dest@ == self.break_dest@
        &&& o.continue_dest@ == self.continue_dest@
        &&& o.sret == self.sret
        &&& o.func.locals@ == self.func.locals@
    }

    /// Apart from the current block, every block still without a terminator
    /// in `o` was already waiting, apart from the current one, in `self`.
    pub open spec fn settled(self, o: Self) -> bool {
        forall|b: int| 0 <= b < o.n_blocks() && b != o.cur && #[trigger] o.is_open(b) ==> b < self.n_blocks() && b != self.cur && self.is_open(b)
    }

    /// Every terminator set since `self` jumps only to blocks created since
    /// `self`, or to loop targets of `self`.
    pub open spec fn jumps_since(self, o: Self) -> bool {
        forall|b: int|
            0 <= b < o.n_blocks() && (b >= self.n_blocks() || self.is_open(b)) ==> (#[trigger] o.func.blocks@[b].term matches Some(t) ==> jumps_fresh(t, self.n_blocks(), self.loop_targets()))
    }
}

proof fn lemma_chain(a: FuncLowering, b: FuncLowering, c: FuncLowering)
    requires
        a.grows(b),
        b.grows(c),
        a.jumps_since(b),
        b.jumps_since(c),
    ensures
        a.grows(c),
        a.jumps_since(c),
        a.settled(b) && b.settled(c) ==> a.settled(c),
{
    assert(a.loop_targets() =~= b.loop_targets());
    assert forall|x: int|
        0 <= x < c.n_blocks() && (x >= a.n_blocks() || a.is_open(x)) implies (#[trigger] c.func.blocks@[x].term matches Some(t) ==> jumps_fresh(t, a.n_blocks(), a.loop_targets())) by {
        if x < b.n_blocks() && !b.is_open(x) {
            assert(c.func.blocks@[x].term == b.func.blocks@[x].term);
        }
    }
}

impl FuncLowering {
    /// Adds an empty block and gives its position.
    fn new_block(&mut self) -> (r: usize)
        requires
            old(self).wf(),
        ensures
            final(self).wf(),
            old(self).grows(*final(self)),
            old(self).jumps_since(*final(self)),
            final(self).cur == old(self).cur,
            r == old(self).n_blocks(),
            final(self).n_blocks() == old(self).n_blocks() + 1,
            final(self).is_open(r as int),
            final(self).func.blocks@[r as int].insts@.len() == 0,
            forall|b: int| 0 <= b < old(self).n_blocks() ==> #[trigger] final(self).func.blocks@[b] == old(self).func.blocks@[b],
    {
        let r = self.func.blocks.len();
        self.func.blocks.push(LBlock { insts: Vec::new(), term: None });
        r
    }

    /// Ends the current block with `t`, unless it has ended already.
    fn terminate(&mut self, t: Term)
        requires
            old(self).wf(),
            targets_below(t, old(self).n_blocks() as nat),
        ensures
            final(self).wf(),
            old(self).grows(*final(self)),
            old(self).settled(*final(self)),
            final(self).cur == old(self).cur,
            final(self).n_blocks() == old(self).n_blocks(),
            !final(self).is_open(final(self).cur as int),
            old(self).is_open(old(self).cur as int) ==> final(self).func.blocks@[final(self).cur as int].term == Some(t),
            !old(self).is_open(old(self).cur as int) ==> final(self).func.blocks@ == old(self).func.blocks@,
            final(self).func.blocks@[final(self).cur as int].insts@ == old(self).func.blocks@[old(self).cur as int].insts@,
            final(self).func.locals@ == old(self).func.locals@,
            final(self).sret == old(self).sret,
            forall|b: int| 0 <= b < old(self).n_blocks() && b != old(self).cur ==> #[trigger] final(self).func.blocks@[b] == old(self).func.blocks@[b],
    {
        let cur = self.cur;
        let open = match &self.func.blocks[cur].term {
            None => true,
            Some(_) => false,
        };
        if open {
            self.func.blocks[cur].term = Some(t);
        }
    }

    /// Makes block `b` the current block.
    fn position(&mut self, b: usize)
        requires
            old(self).wf(),
            b < old(self).n_blocks(),
            !old(self).is_open(old(self).cur as int),
        ensures
            final(self).wf(),
            old(self).grows(*final(self)),
            old(self).settled(*final(self)),
            old(self).jumps_since(*final(self)),
            final(self).cur == b,
            final(self).func == old(self).func,
    {
        self.cur = b;
    }

    /// Lowers the statements in order.
    #[verifier::rlimit(100)]
    #[verifier::spinoff_prover]
    pub fn lower_stmts(&mut self, m: &Module, params: &Vec<TypeId>, stmts: &Vec<Stmt>) -> (r: Result<(), LowerError>)
        requires
            old(self).wf(),
            context_valid(m, params),
        ensures
            final(self).wf(),
            old(self).grows(*final(self)),
            old(self).jumps_since(*final(self)),
            r is Ok ==> old(self).settled(*final(self)),
            r is Ok && ends_in_exit(stmts@) ==> !final(self).is_open(final(self).cur as int),
            r is Ok && stmts@.len() > 0 && stmts@[0] is Break && old(self).is_open(old(self).cur as int) ==> final(self).func.blocks@[old(self).cur as int].term == Some(Term::Br(old(self).break_dest@.last())),
            r is Ok <==> stmts_ok(*m, old(self).func.locals@.len(), params@, stmts@, old(self).break_dest@.len()),
            r is Ok && old(self).is_open(old(self).cur as int) && all_simple(stmts@) ==> final(self).cur == old(self).cur && final(self).n_blocks() == old(self).n_blocks()
                && final(self).is_open(final(self).cur as int)
                && final(self).cur_view() == old(self).cur_view() + straight_low(*m, params@, old(self).cur, old(self).cur_len(), stmts@),
            r is Ok && old(self).is_open(old(self).cur as int) && stmts@.len() > 0 && all_simple(stmts@.drop_last()) && stmts@.last() is Return ==> final(self).cur == old(self).cur
                && final(self).n_blocks() == old(self).n_blocks()
                && final(self).cur_view() == old(self).cur_view() + straight_low(*m, params@, old(self).cur, old(self).cur_len(), stmts@.drop_last()) + expr_low(*m, params@, old(self).cur, old(self).cur_len() + straight_low(*m, params@, old(self).cur, old(self).cur_len(), stmts@.drop_last()).len(), stmts@.last()->Return_0, slot_op(old(self).sret)).0
                && final(self).func.blocks@[old(self).cur as int].term == Some(ret_term(expr_low(*m, params@, old(self).cur, old(self).cur_len() + straight_low(*m, params@, old(self).cur, old(self).cur_len(), stmts@.drop_last()).len(), stmts@.last()->Return_0, slot_op(old(self).sret)).1)),
        decreases stmts, 0int,
    {
        let ghost s0 = *self;
        let mut i: usize = 0;
        while i < stmts.len()
            invariant
                self.wf(),
                s0 == *old(self),
                s0.grows(*self),
                s0.settled(*self),
                s0.jumps_since(*self),
                context_valid(m, params),
                i <= stmts@.len(),
                i > 0 && (stmts@[i - 1] is Return || stmts@[i - 1] is Break || stmts@[i - 1] is Continue) ==> !self.is_open(self.cur as int),
                i > 0 && stmts@[0] is Break && s0.is_open(s0.cur as int) ==> self.func.blocks@[s0.cur as int].term == Some(Term::Br(s0.break_dest@.last())),
                i == 0 ==> *self == s0,
                s0.wf(),
                forall|j: int| 0 <= j < i ==> stmt_ok(*m, old(self).func.locals@.len(), params@, #[trigger] stmts@[j], old(self).break_dest@.len()),
                all_simple(stmts@.take(i as int)) && s0.is_open(s0.cur as int) ==> self.cur == s0.cur && self.n_blocks() == s0.n_blocks()
                    && self.is_open(self.cur as int) && self.cur_view() == s0.cur_view() + straight_low(*m, params@, s0.cur, s0.cur_len(), stmts@.take(i as int)),
                i > 0 && all_simple(stmts@.take(i as int - 1)) && stmts@[i - 1] is Return && s0.is_open(s0.cur as int) ==> self.cur == s0.cur
                    && self.n_blocks() == s0.n_blocks()
                    && self.cur_view() == s0.cur_view() + straight_low(*m, params@, s0.cur, s0.cur_len(), stmts@.take(i as int - 1)) + expr_low(*m, params@, s0.cur, s0.cur_len() + straight_low(*m, params@, s0.cur, s0.cur_len(), stmts@.take(i as int - 1)).len(), stmts@[i - 1]->Return_0, slot_op(s0.sret)).0
                    && self.func.blocks@[s0.cur as int].term == Some(ret_term(expr_low(*m, params@, s0.cur, s0.cur_len() + straight_low(*m, params@, s0.cur, s0.cur_len(), stmts@.take(i as int - 1)).len(), stmts@[i - 1]->Return_0, slot_op(s0.sret)).1)),
            decreases stmts@.len() - i,
        {
            proof {
                assert(decreases_to!(*stmts => stmts@));
                assert(decreases_to!(stmts@ => stmts@[i as int]));
            }
            let ghost before = *self;
            let res = self.lower_stmt(m, params, &stmts[i]);
            proof {
                lemma_chain(s0, before, *self);
                if res is Ok && stmts@[0] is Break && s0.is_open(s0.cur as int) {
                    if i > 0 {
                        assert(!before.is_open(s0.cur as int));
                        assert(self.func.blocks@[s0.cur as int].term == before.func.blocks@[s0.cur as int].term);
                    } else {
                        assert(before == s0);
                        assert(self.func.blocks@[s0.cur as int].term == Some(Term::Br(s0.break_dest@.last())));
                    }
                }
            }
            res?;
            proof {
                assert(stmts@.take(i as int + 1).drop_last() =~= stmts@.take(i as int));
                assert(stmts@.take(i as int + 1).last() == stmts@[i as int]);
                if all_simple(stmts@.take(i as int + 1)) {
                    assert(all_simple(stmts@.take(i as int)));
                    assert(stmts@.take(i as int + 1)[i as int] == stmts@[i as int]);
                    if s0.is_open(s0.cur as int) {
                        assert(self.cur_view() =~= s0.cur_view() + straight_low(*m, params@, s0.cur, s0.cur_len(), stmts@.take(i as int + 1)));
                    }
                }
                if all_simple(stmts@.take(i as int)) && stmts@[i as int] is Return && s0.is_open(s0.cur as int) {
                    assert(stmts@.take(i as int + 1 - 1) =~= stmts@.take(i as int));
                    assert(self.cur_view() =~= s0.cur_view() + straight_low(*m, params@, s0.cur, s0.cur_len(), stmts@.take(i as int)) + expr_low(*m, params@, s0.cur, s0.cur_len() + straight_low(*m, params@, s0.cur, s0.cur_len(), stmts@.take(i as int)).len(), stmts@[i as int]->Return_0, slot_op(s0.sret)).0);
                }
            }
            i = i + 1;
        }
        proof {
            assert(stmts@.take(stmts@.len() as int) =~= stmts@);
            if stmts@.len() > 0 {
                assert(stmts@.take(stmts@.len() - 1) =~= stmts@.drop_last());
            }
        }
        Ok(())
    }
}

impl FuncLowering {
    /// Lowers one statement.
    #[verifier::rlimit(100)]
    #[verifier::spinoff_prover]
    pub fn lower_stmt(&mut self, m: &Module, params: &Vec<TypeId>, s: &Stmt) -> (r: Result<(), LowerError>)
        requires
            old(self).wf(),
            context_valid(m, params),
        ensures
            final(self).wf(),
            old(self).grows(*final(self)),
            old(self).jumps_since(*final(self)),
            r is Ok ==> old(self).settled(*final(self)),
            r is Ok && (s is Return || s is Break || s is Continue) ==> !final(self).is_open(final(self).cur as int),
            r is Ok && s is Break && old(self).is_open(old(self).cur as int) ==> final(self).func.blocks@[old(self).cur as int].term == Some(Term::Br(old(self).break_dest@.last())),
            r is Ok && s is Continue && old(self).is_open(old(self).cur as int) ==> final(self).func.blocks@[old(self).cur as int].term == Some(Term::Br(old(self).continue_dest@.last())),
            r is Ok && (s matches Stmt::While(_, body) && body.stmts@.len() > 0 && body.stmts@[0] is Break) ==> final(self).func.blocks@[old(self).n_blocks() + 1].term == Some(Term::Br((old(self).n_blocks() + 2) as usize)),
            r is Ok && (s matches Stmt::If(_, body) && ends_in_exit(body.stmts@)) ==> forall|b: int| 0 <= b < final(self).n_blocks() ==> #[trigger] final(self).func.blocks@[b].term != Some(Term::Br((old(self).n_blocks() + 1) as usize)),
            r is Ok <==> stmt_ok(*m, old(self).func.locals@.len(), params@, *s, old(self).break_dest@.len()),
            r is Ok && old(self).is_open(old(self).cur as int) && (s is Assign || s is Expr) ==> final(self).cur == old(self).cur && final(self).n_blocks() == old(self).n_blocks()
                && final(self).is_open(final(self).cur as int)
                && final(self).cur_view() == old(self).cur_view() + simple_stmt_low(*m, params@, old(self).cur, old(self).cur_len(), *s),
            r is Ok && old(self).is_open(old(self).cur as int) && s is Return ==> final(self).cur == old(self).cur && final(self).n_blocks() == old(self).n_blocks()
                && final(self).cur_view() == old(self).cur_view() + expr_low(*m, params@, old(self).cur, old(self).cur_len(), s->Return_0, slot_op(old(self).sret)).0
                && final(self).func.blocks@[old(self).cur as int].term == Some(ret_term(expr_low(*m, params@, old(self).cur, old(self).cur_len(), s->Return_0, slot_op(old(self).sret)).1)),
            r is Ok && old(self).is_open(old(self).cur as int) && s is If ==> final(self).cur == old(self).n_blocks() + 1
                && final(self).func.blocks@[old(self).cur as int].term == Some(Term::CondBr(scalar_low(*m, params@, old(self).cur, old(self).cur_len(), s->If_0).1, old(self).n_blocks() as usize, (old(self).n_blocks() + 1) as usize))
                && insts_view(final(self).func.blocks@[old(self).cur as int].insts@) == old(self).cur_view() + scalar_low(*m, params@, old(self).cur, old(self).cur_len(), s->If_0).0,
            r is Ok && old(self).is_open(old(self).cur as int) && s is If && all_simple(s->If_1.stmts@) ==> final(self).func.blocks@[old(self).n_blocks()].term == Some(Term::Br((old(self).n_blocks() + 1) as usize))
                && insts_view(final(self).func.blocks@[old(self).n_blocks()].insts@) == straight_low(*m, params@, old(self).n_blocks() as usize, 0, s->If_1.stmts@),
            r is Ok && old(self).is_open(old(self).cur as int) && s is While ==> final(self).cur == old(self).n_blocks() + 2
                && final(self).func.blocks@[old(self).cur as int].term == Some(Term::Br(old(self).n_blocks() as usize))
                && insts_view(final(self).func.blocks@[old(self).cur as int].insts@) == old(self).cur_view()
                && final(self).func.blocks@[old(self).n_blocks()].term == Some(Term::CondBr(scalar_low(*m, params@, old(self).n_blocks() as usize, 0, s->While_0).1, (old(self).n_blocks() + 1) as usize, (old(self).n_blocks() + 2) as usize))
                && insts_view(final(self).func.blocks@[old(self).n_blocks()].insts@) == scalar_low(*m, params@, old(self).n_blocks() as usize, 0, s->While_0).0,
            r is Ok && s is While && all_simple(s->While_1.stmts@) ==> final(self).func.blocks@[old(self).n_blocks() + 1].term == Some(Term::Br(old(self).n_blocks() as usize))
                && insts_view(final(self).func.blocks@[old(self).n_blocks() + 1].insts@) == straight_low(*m, params@, (old(self).n_blocks() + 1) as usize, 0, s->While_1.stmts@),
            r is Ok && s is For && old(self).is_open(old(self).cur as int) && all_simple(s->For_0@) && all_simple(s->For_2@) ==> final(self).cur == old(self).n_blocks() + 3
                && final(self).func.blocks@[old(self).cur as int].term == Some(Term::Br(old(self).n_blocks() as usize))
                && insts_view(final(self).func.blocks@[old(self).cur as int].insts@) == old(self).cur_view() + straight_low(*m, params@, old(self).cur, old(self).cur_len(), s->For_0@)
                && final(self).func.blocks@[old(self).n_blocks()].term == Some(Term::CondBr(scalar_low(*m, params@, old(self).n_blocks() as usize, 0, s->For_1).1, (old(self).n_blocks() + 1) as usize, (old(self).n_blocks() + 3) as usize))
                && insts_view(final(self).func.blocks@[old(self).n_blocks()].insts@) == scalar_low(*m, params@, old(self).n_blocks() as usize, 0, s->For_1).0,
            r is Ok && s is For && old(self).is_open(old(self).cur as int) && all_simple(s->For_0@) && all_simple(s->For_2@) && all_simple(s->For_3.stmts@) ==> final(self).func.blocks@[old(self).n_blocks() + 1].term == Some(Term::Br((old(self).n_blocks() + 2) as usize))
                && insts_view(final(self).func.blocks@[old(self).n_blocks() + 1].insts@) == straight_low(*m, params@, (old(self).n_blocks() + 1) as usize, 0, s->For_3.stmts@),
            r is Ok && s is For && old(self).is_open(old(self).cur as int) && all_simple(s->For_0@) && s->For_3.stmts@.len() > 0 && s->For_3.stmts@[0] is Break ==> final(self).func.blocks@[old(self).n_blocks() + 1].term == Some(Term::Br((old(self).n_blocks() + 3) as usize)),
        decreases s, 2int,
    {
        match s {
            Stmt::Break => self.lower_jump(true),
            Stmt::Continue => self.lower_jump(false),
            Stmt::For(_, _, _, _) => self.lower_for(m, params, s),
            Stmt::While(cond, body) => {
                proof {
                    assert(decreases_to!(*s => s->While_1));
                    assert(decreases_to!(s->While_1 => s->While_1.stmts));
                }
                self.lower_while(m, params, cond, &body.stmts)
            },
            Stmt::If(cond, body) => {
                proof {
                    assert(decreases_to!(*s => s->If_1));
                    assert(decreases_to!(s->If_1 => s->If_1.stmts));
                }
                self.lower_if(m, params, cond, &body.stmts)
            },
            Stmt::Assign(place, value) => {
                let ghost s0 = *self;
                let at = self.lower_place(m, params, place);
                proof { lemma_same_shape(s0, *self); }
                let at = at?;
                let ghost s1 = *self;
                let res = self.lower_expr(m, params, value, Some(at));
                proof {
                    lemma_same_shape(s1, *self);
                    lemma_chain(s0, s1, *self);
                }
                let _ = res?;
                proof {
                    if old(self).is_open(old(self).cur as int) {
                        assert(self.cur_view() =~= old(self).cur_view() + simple_stmt_low(*m, params@, old(self).cur, old(self).cur_len(), *s));
                    }
                }
                Ok(())
            },
            Stmt::Return(value) => self.lower_return(m, params, value),
            Stmt::Expr(value) => {
                let ghost s0 = *self;
                let res = self.lower_expr(m, params, value, None);
                proof { lemma_same_shape(s0, *self); }
                let _ = res?;
                Ok(())
            },
        }
    }

    /// A jump to the innermost loop's exit (`to_exit`) or next iteration.
    fn lower_jump(&mut self, to_exit: bool) -> (r: Result<(), LowerError>)
        requires
            old(self).wf(),
        ensures
            final(self).wf(),
            old(self).grows(*final(self)),
            old(self).jumps_since(*final(self)),
            r is Ok ==> old(self).settled(*final(self)),
            r is Ok ==> !final(self).is_open(final(self).cur as int),
            r is Ok && to_exit && old(self).is_open(old(self).cur as int) ==> final(self).func.blocks@[old(self).cur as int].term == Some(Term::Br(old(self).break_dest@.last())),
            r is Ok && !to_exit && old(self).is_open(old(self).cur as int) ==> final(self).func.blocks@[old(self).cur as int].term == Some(Term::Br(old(self).continue_dest@.last())),
            r is Err <==> (if to_exit { old(self).break_dest@.len() == 0 } else { old(self).continue_dest@.len() == 0 }),
    {
        let ghost s0 = *self;
        let n = self.break_dest.len();
        if n == 0 {
            return Err(if to_exit { LowerError::BreakOutsideLoop } else { LowerError::ContinueOutsideLoop });
        }
        let target = if to_exit { self.break_dest[n - 1] } else { self.continue_dest[n - 1] };
        proof {
            if to_exit {
                assert(s0.break_dest@.contains(target));
            } else {
                assert(s0.continue_dest@[n - 1] == target);
                assert(s0.continue_dest@.contains(target));
            }
            assert(s0.loop_targets().contains(target));
        }
        self.terminate(Term::Br(target));
        Ok(())
    }

    /// A return: an aggregate result is written through the return slot.
    fn lower_return(&mut self, m: &Module, params: &Vec<TypeId>, value: &Expr) -> (r: Result<(), LowerError>)
        requires
            old(self).wf(),
            context_valid(m, params),
        ensures
            final(self).wf(),
            old(self).grows(*final(self)),
            old(self).jumps_since(*final(self)),
            r is Ok ==> old(self).settled(*final(self)),
            r is Ok ==> !final(self).is_open(final(self).cur as int),
            r is Ok <==> expr_ok(*m, old(self).func.locals@.len(), params@, *value),
            r is Ok && old(self).is_open(old(self).cur as int) ==> final(self).cur == old(self).cur && final(self).n_blocks() == old(self).n_blocks()
                && final(self).cur_view() == old(self).cur_view() + expr_low(*m, params@, old(self).cur, old(self).cur_len(), *value, slot_op(old(self).sret)).0
                && final(self).func.blocks@[old(self).cur as int].term == Some(ret_term(expr_low(*m, params@, old(self).cur, old(self).cur_len(), *value, slot_op(old(self).sret)).1)),
        decreases value, 3int,
    {
        let ghost s0 = *self;
        let slot = match self.sret {
            Some(i) => Some(Operand::Param(i)),
            None => None,
        };
        let res = self.lower_expr(m, params, value, slot);
        proof { lemma_same_shape(s0, *self); }
        let ghost s1 = *self;
        match res? {
            Value::Scalar(v) => self.terminate(Term::Ret(v)),
            _ => self.terminate(Term::RetVoid),
        }
        proof { lemma_chain(s0, s1, *self); }
        Ok(())
    }

    /// `if`: a conditional branch to the body or past it; the body falls
    /// through to the block after it unless it has ended already.
    #[verifier::rlimit(100)]
    #[verifier::spinoff_prover]
    fn lower_if(&mut self, m: &Module, params: &Vec<TypeId>, cond: &Expr, body: &Vec<Stmt>) -> (r: Result<(), LowerError>)
        requires
            old(self).wf(),
            context_valid(m, params),
        ensures
            final(self).wf(),
            old(self).grows(*final(self)),
            old(self).jumps_since(*final(self)),
            r is Ok ==> old(self).settled(*final(self)),
            r is Ok && ends_in_exit(body@) ==> forall|b: int| 0 <= b < final(self).n_blocks() ==> #[trigger] final(self).func.blocks@[b].term != Some(Term::Br((old(self).n_blocks() + 1) as usize)),
            r is Ok <==> scalar_ok(*m, old(self).func.locals@.len(), params@, *cond) && stmts_ok(*m, old(self).func.locals@.len(), params@, body@, old(self).break_dest@.len()),
            r is Ok && old(self).is_open(old(self).cur as int) ==> final(self).cur == old(self).n_blocks() + 1
                && final(self).func.blocks@[old(self).cur as int].term == Some(Term::CondBr(scalar_low(*m, params@, old(self).cur, old(self).cur_len(), *cond).1, old(self).n_blocks() as usize, (old(self).n_blocks() + 1) as usize))
                && insts_view(final(self).func.blocks@[old(self).cur as int].insts@) == old(self).cur_view() + scalar_low(*m, params@, old(self).cur, old(self).cur_len(), *cond).0,
            r is Ok && old(self).is_open(old(self).cur as int) && all_simple(body@) ==> final(self).func.blocks@[old(self).n_blocks()].term == Some(Term::Br((old(self).n_blocks() + 1) as usize))
                && insts_view(final(self).func.blocks@[old(self).n_blocks()].insts@) == straight_low(*m, params@, old(self).n_blocks() as usize, 0, body@),
        decreases body, 1int,
    {
        let ghost s0 = *self;
        let c = self.lower_scalar(m, params, cond);
        proof { lemma_same_shape(s0, *self); }
        let c = c?;
        let ghost s1 = *self;
        let then = self.new_block();
        let done = self.new_block();
        self.terminate(Term::CondBr(c, then, done));
        let ghost s4 = *self;
        proof {
            assert(s0.loop_targets() =~= s4.loop_targets());
            assert(s0.jumps_since(s4));
        }
        self.position(then);
        let ghost s5 = *self;
        let res = self.lower_stmts(m, params, body);
        proof { lemma_chain(s0, s5, *self); }
        res?;
        let ghost s6 = *self;
        self.terminate(Term::Br(done));
        proof {
            assert(s0.jumps_since(*self));
            if ends_in_exit(body@) {
                assert(self.func.blocks@ == s6.func.blocks@);
                assert forall|b: int| 0 <= b < self.n_blocks() implies #[trigger] self.func.blocks@[b].term != Some(Term::Br(done)) by {
                    if b < s5.n_blocks() && !s5.is_open(b) {
                        assert(s6.func.blocks@[b].term == s5.func.blocks@[b].term);
                        if b != s0.cur {
                            assert(s5.func.blocks@[b].term == s0.func.blocks@[b].term);
                        }
                    } else if let Some(t) = self.func.blocks@[b].term {
                        assert(jumps_fresh(t, s5.n_blocks(), s5.loop_targets()));
                        if t == Term::Br(done) {
                            assert(s5.loop_targets().contains(done));
                            if s0.break_dest@.contains(done) {
                                let k = choose|k: int| 0 <= k < s0.break_dest@.len() && s0.break_dest@[k] == done;
                                assert(s0.break_dest@[k] < s0.n_blocks());
                            } else {
                                let k = choose|k: int| 0 <= k < s0.continue_dest@.len() && s0.continue_dest@[k] == done;
                                assert(s0.continue_dest@[k] < s0.n_blocks());
                            }
                        }
                    }
                }
            }
        }
        let ghost s7 = *self;
        self.position(done);
        proof {
            let c0 = s0.cur as int;
            if s0.is_open(c0) {
                assert(s4.func.blocks@[c0] == s5.func.blocks@[c0]);
                assert(!s5.is_open(c0));
                assert(s6.func.blocks@[c0] == s5.func.blocks@[c0]);
                assert(s7.func.blocks@[c0] == s6.func.blocks@[c0]);
                assert(insts_view(s4.func.blocks@[c0].insts@) == s1.cur_view());
                if all_simple(body@) {
                    assert(s5.cur_view() =~= seq![]);
                    assert(s6.cur == then);
                    assert(s7.func.blocks@[then as int].insts@ == s6.func.blocks@[then as int].insts@);
                }
            }
        }
        Ok(())
    }
}

impl FuncLowering {
    /// Lowers a loop body with `done` as the target of `break` and `next`
    /// as the target of `continue`; the innermost loop's targets win.
    #[verifier::rlimit(100)]
    #[verifier::spinoff_prover]
    fn lower_loop_body(&mut self, m: &Module, params: &Vec<TypeId>, body: &Vec<Stmt>, done: usize, next: usize) -> (r: Result<(), LowerError>)
        requires
            old(self).wf(),
            context_valid(m, params),
            done < old(self).n_blocks(),
            next < old(self).n_blocks(),
        ensures
            final(self).wf(),
            old(self).grows(*final(self)),
            r is Ok ==> old(self).settled(*final(self)),
            forall|b: int|
                0 <= b < final(self).n_blocks() && (b >= old(self).n_blocks() || old(self).is_open(b)) ==> (#[trigger] final(self).func.blocks@[b].term matches Some(t) ==> jumps_fresh(t, old(self).n_blocks(), old(self).loop_targets().insert(done).insert(next))),
            r is Ok && body@.len() > 0 && body@[0] is Break && old(self).is_open(old(self).cur as int) ==> final(self).func.blocks@[old(self).cur as int].term == Some(Term::Br(done)),
            r is Ok <==> stmts_ok(*m, old(self).func.locals@.len(), params@, body@, old(self).break_dest@.len() + 1),
            r is Ok && old(self).is_open(old(self).cur as int) && all_simple(body@) ==> final(self).cur == old(self).cur && final(self).n_blocks() == old(self).n_blocks()
                && final(self).is_open(final(self).cur as int)
                && final(self).cur_view() == old(self).cur_view() + straight_low(*m, params@, old(self).cur, old(self).cur_len(), body@),
        decreases body, 1int,
    {
        let ghost s0 = *self;
        self.break_dest.push(done);
        self.continue_dest.push(next);
        let ghost s1 = *self;
        proof {
            assert forall|x: usize| s1.loop_targets().contains(x) implies #[trigger] s0.loop_targets().insert(done).insert(next).contains(x) by {
                if s1.break_dest@.contains(x) {
                    let i = choose|i: int| 0 <= i < s1.break_dest@.len() && s1.break_dest@[i] == x;
                    if i < s0.break_dest@.len() {
                        assert(s0.break_dest@[i] == x);
                    }
                } else {
                    let i = choose|i: int| 0 <= i < s1.continue_dest@.len() && s1.continue_dest@[i] == x;
                    if i < s0.continue_dest@.len() {
                        assert(s0.continue_dest@[i] == x);
                    }
                }
            }
            assert forall|i: int| 0 <= i < s1.break_dest@.len() implies #[trigger] s1.break_dest@[i] < s1.n_blocks() by {
                if i < s0.break_dest@.len() {
                    assert(s1.break_dest@[i] == s0.break_dest@[i]);
                }
            }
            assert forall|i: int| 0 <= i < s1.continue_dest@.len() implies #[trigger] s1.continue_dest@[i] < s1.n_blocks() by {
                if i < s0.continue_dest@.len() {
                    assert(s1.continue_dest@[i] == s0.continue_dest@[i]);
                }
            }
        }
        let res = self.lower_stmts(m, params, body);
        let ghost s2 = *self;
        assert(s1.break_dest@.last() == done);
        let _ = self.break_dest.pop();
        let _ = self.continue_dest.pop();
        proof {
            assert(self.break_dest@ =~= s0.break_dest@);
            assert(self.continue_dest@ =~= s0.continue_dest@);
            assert forall|b: int|
                0 <= b < self.n_blocks() && (b >= s0.n_blocks() || s0.is_open(b)) implies (#[trigger] self.func.blocks@[b].term matches Some(t) ==> jumps_fresh(t, s0.n_blocks(), s0.loop_targets().insert(done).insert(next))) by {
                assert(self.func.blocks@[b] == s2.func.blocks@[b]);
                if let Some(t) = self.func.blocks@[b].term {
                    assert(jumps_fresh(t, s1.n_blocks(), s1.loop_targets()));
                }
            }
            if res is Ok {
                assert(s1.settled(s2));
                assert forall|b: int| 0 <= b < self.n_blocks() && b != self.cur && #[trigger] self.is_open(b) implies b < s0.n_blocks() && b != s0.cur && s0.is_open(b) by {
                    assert(s2.is_open(b));
                }
            }
        }
        res
    }

    /// `while`: the head block tests the condition each time round; the
    /// body falls through to the head.
    #[verifier::rlimit(100)]
    #[verifier::spinoff_prover]
    fn lower_while(&mut self, m: &Module, params: &Vec<TypeId>, cond: &Expr, body: &Vec<Stmt>) -> (r: Result<(), LowerError>)
        requires
            old(self).wf(),
            context_valid(m, params),
        ensures
            final(self).wf(),
            old(self).grows(*final(self)),
            old(self).jumps_since(*final(self)),
            r is Ok ==> old(self).settled(*final(self)),
            r is Ok && body@.len() > 0 && body@[0] is Break ==> final(self).func.blocks@[old(self).n_blocks() + 1].term == Some(Term::Br((old(self).n_blocks() + 2) as usize)),
            r is Ok <==> scalar_ok(*m, old(self).func.locals@.len(), params@, *cond) && stmts_ok(*m, old(self).func.locals@.len(), params@, body@, old(self).break_dest@.len() + 1),
            r is Ok && old(self).is_open(old(self).cur as int) ==> final(self).cur == old(self).n_blocks() + 2
                && final(self).func.blocks@[old(self).cur as int].term == Some(Term::Br(old(self).n_blocks() as usize))
                && insts_view(final(self).func.blocks@[old(self).cur as int].insts@) == old(self).cur_view()
                && final(self).func.blocks@[old(self).n_blocks()].term == Some(Term::CondBr(scalar_low(*m, params@, old(self).n_blocks() as usize, 0, *cond).1, (old(self).n_blocks() + 1) as usize, (old(self).n_blocks() + 2) as usize))
                && insts_view(final(self).func.blocks@[old(self).n_blocks()].insts@) == scalar_low(*m, params@, old(self).n_blocks() as usize, 0, *cond).0,
            r is Ok && all_simple(body@) ==> final(self).func.blocks@[old(self).n_blocks() + 1].term == Some(Term::Br(old(self).n_blocks() as usize))
                && insts_view(final(self).func.blocks@[old(self).n_blocks() + 1].insts@) == straight_low(*m, params@, (old(self).n_blocks() + 1) as usize, 0, body@),
        decreases body, 2int,
    {
        let ghost s0 = *self;
        let head = self.new_block();
        let then = self.new_block();
        let done = self.new_block();
        self.terminate(Term::Br(head));
        proof {
            assert(s0.loop_targets() =~= self.loop_targets());
            assert(s0.jumps_since(*self));
        }
        self.position(head);
        let ghost s1 = *self;
        proof { lemma_chain(s0, s1, s1); }
        let c = self.lower_scalar(m, params, cond);
        proof {
            lemma_same_shape(s1, *self);
            lemma_chain(s0, s1, *self);
        }
        let c = c?;
        let ghost s2 = *self;
        proof {
            assert(s1.cur_view() =~= seq![]);
        }
        self.terminate(Term::CondBr(c, then, done));
        proof {
            assert(s0.loop_targets() =~= self.loop_targets());
            assert(s0.jumps_since(*self));
        }
        self.position(then);
        let ghost s3 = *self;
        let ghost sc = s2;
        let res = self.lower_loop_body(m, params, body, done, head);
        proof {
            assert(s0.loop_targets() =~= s3.loop_targets());
            assert(s0.jumps_since(*self));
        }
        res?;
        let ghost s4 = *self;
        proof {
            if all_simple(body@) {
                assert(s3.cur_view() =~= seq![]);
            }
        }
        self.terminate(Term::Br(head));
        proof {
            assert(s0.jumps_since(*self));
        }
        let ghost s5 = *self;
        self.position(done);
        proof {
            let c0 = s0.cur as int;
            let h = head as int;
            assert(!s3.is_open(h));
            assert(s4.func.blocks@[h] == s3.func.blocks@[h]);
            assert(s5.func.blocks@[h] == s4.func.blocks@[h]);
            if s0.is_open(c0) {
                assert(!s1.is_open(c0));
                assert(s3.func.blocks@[c0] == s1.func.blocks@[c0]);
                assert(s4.func.blocks@[c0] == s3.func.blocks@[c0]);
                assert(s5.func.blocks@[c0] == s4.func.blocks@[c0]);
                assert(insts_view(s1.func.blocks@[c0].insts@) =~= s0.cur_view());
            }
        }
        Ok(())
    }

    /// `for`: the initialiser runs once; each iteration tests the condition,
    /// runs the body, then the post-step block, reached by falling through
    /// or by `continue`.
    #[verifier::rlimit(100)]
    #[verifier::spinoff_prover]
    fn lower_for(&mut self, m: &Module, params: &Vec<TypeId>, s: &Stmt) -> (r: Result<(), LowerError>)
        requires
            old(self).wf(),
            context_valid(m, params),
            s is For,
        ensures
            final(self).wf(),
            old(self).grows(*final(self)),
            old(self).jumps_since(*final(self)),
            r is Ok ==> old(self).settled(*final(self)),
            r is Ok <==> stmt_ok(*m, old(self).func.locals@.len(), params@, *s, old(self).break_dest@.len()),
            r is Ok && old(self).is_open(old(self).cur as int) && all_simple(s->For_0@) && all_simple(s->For_2@) ==> final(self).cur == old(self).n_blocks() + 3
                && final(self).func.blocks@[old(self).cur as int].term == Some(Term::Br(old(self).n_blocks() as usize))
                && insts_view(final(self).func.blocks@[old(self).cur as int].insts@) == old(self).cur_view() + straight_low(*m, params@, old(self).cur, old(self).cur_len(), s->For_0@)
                && final(self).func.blocks@[old(self).n_blocks()].term == Some(Term::CondBr(scalar_low(*m, params@, old(self).n_blocks() as usize, 0, s->For_1).1, (old(self).n_blocks() + 1) as usize, (old(self).n_blocks() + 3) as usize))
                && insts_view(final(self).func.blocks@[old(self).n_blocks()].insts@) == scalar_low(*m, params@, old(self).n_blocks() as usize, 0, s->For_1).0,
            r is Ok && old(self).is_open(old(self).cur as int) && all_simple(s->For_0@) && all_simple(s->For_2@) && all_simple(s->For_3.stmts@) ==> final(self).func.blocks@[old(self).n_blocks() + 1].term == Some(Term::Br((old(self).n_blocks() + 2) as usize))
                && insts_view(final(self).func.blocks@[old(self).n_blocks() + 1].insts@) == straight_low(*m, params@, (old(self).n_blocks() + 1) as usize, 0, s->For_3.stmts@),
            r is Ok && old(self).is_open(old(self).cur as int) && all_simple(s->For_0@) && s->For_3.stmts@.len() > 0 && s->For_3.stmts@[0] is Break ==> final(self).func.blocks@[old(self).n_blocks() + 1].term == Some(Term::Br((old(self).n_blocks() + 3) as usize)),
        decreases s, 1int,
    {
        let (init, cond, post, body) = match s {
            Stmt::For(init, cond, post, body) => (init, cond, post, &body.stmts),
            _ => return Ok(()),
        };
        proof {
            assert(decreases_to!(*s => s->For_0));
            assert(decreases_to!(*s => s->For_2));
            assert(decreases_to!(*s => s->For_3));
            assert(decreases_to!(s->For_3 => s->For_3.stmts));
        }
        let ghost s0 = *self;
        let res = self.lower_stmts(m, params, init);
        res?;
        let ghost s1 = *self;
        let head = self.new_block();
        let then = self.new_block();
        let tail = self.new_block();
        let done = self.new_block();
        self.terminate(Term::Br(head));
        let ghost st = *self;
        proof {
            assert(s1.loop_targets() =~= self.loop_targets());
            assert(s1.jumps_since(*self));
            lemma_chain(s0, s1, *self);
        }
        self.position(head);
        let ghost s2 = *self;
        let c = self.lower_scalar(m, params, cond);
        proof {
            lemma_same_shape(s2, *self);
            lemma_chain(s0, s2, *self);
        }
        let c = c?;
        let ghost sc = *self;
        self.terminate(Term::CondBr(c, then, done));
        proof {
            assert(s0.loop_targets() =~= self.loop_targets());
            assert(s1.jumps_since(*self));
            lemma_chain(s0, s1, *self);
        }
        self.position(then);
        let ghost s3 = *self;
        let res = self.lower_loop_body(m, params, body, done, tail);
        proof {
            assert(s1.loop_targets() =~= s3.loop_targets());
            assert(s1.jumps_since(*self));
            lemma_chain(s0, s1, *self);
        }
        res?;
        let ghost sb = *self;
        self.terminate(Term::Br(tail));
        proof {
            assert(s1.jumps_since(*self));
        }
        let ghost se = *self;
        self.position(tail);
        let ghost s4 = *self;
        proof {
            lemma_settled_trans(sb, se, s4);
            lemma_settled_trans(s3, sb, s4);
        }
        let res = self.lower_stmts(m, params, post);
        proof {
            assert(s1.jumps_since(*self));
            lemma_chain(s0, s1, *self);
        }
        res?;
        let ghost sd = *self;
        self.terminate(Term::Br(head));
        proof {
            assert(s1.jumps_since(*self));
            lemma_chain(s0, s1, *self);
        }
        let ghost sf = *self;
        self.position(done);
        proof {
            lemma_settled_trans(sd, sf, *self);
            lemma_settled_trans(s4, sd, *self);
            lemma_settled_trans(s3, s4, *self);
            lemma_settled_trans(s2, sc, s3);
            lemma_settled_trans(st, s2, s3);
            lemma_settled_trans(st, s3, *self);
            assert(s1.settled(*self));
            let c0 = s0.cur as int;
            let h = head as int;
            let tl = tail as int;
            let th = then as int;
            if s0.is_open(c0) && all_simple(init@) && all_simple(post@) {
                assert(!st.is_open(c0));
                assert(st.func.blocks@[c0] == s2.func.blocks@[c0]);
                assert(sc.func.blocks@[c0] == s2.func.blocks@[c0]);
                assert(s3.func.blocks@[c0] == sc.func.blocks@[c0]);
                assert(sb.func.blocks@[c0] == s3.func.blocks@[c0]);
                assert(s4.func.blocks@[c0] == sb.func.blocks@[c0]);
                assert(sd.func.blocks@[c0] == s4.func.blocks@[c0]);
                assert(self.func.blocks@[c0] == sd.func.blocks@[c0]);
                assert(s2.cur_view() =~= seq![]);
                assert(!s3.is_open(h));
                assert(sb.func.blocks@[h] == s3.func.blocks@[h]);
                assert(s4.func.blocks@[h] == sb.func.blocks@[h]);
                assert(sd.func.blocks@[h] == s4.func.blocks@[h]);
                assert(self.func.blocks@[h] == sd.func.blocks@[h]);
                if all_simple(body@) {
                    assert(s3.cur_view() =~= seq![]);
                    assert(!se.is_open(th));
                    assert(s4.func.blocks@[th] == se.func.blocks@[th]);
                    assert(sd.func.blocks@[th] == s4.func.blocks@[th]);
                    assert(self.func.blocks@[th] == sd.func.blocks@[th]);
                }
            }
        }
        Ok(())
    }
}

/// A call whose arguments have the declared parameter types gets one machine
/// argument for each declared parameter that takes a machine slot, so with a
/// destination for an aggregate result it gets exactly one more than that.
pub proof fn lemma_call_argument_count(types: Seq<Type>, args: Seq<Expr>, params: Seq<TypeId>)
    requires
        args.len() == params.len(),
        forall|i: int| 0 <= i < args.len() ==> #[trigger] args[i].ty == params[i],
    ensures
        valued_count(types, args) == slot_count(types, params),
    decreases args.len(),
{
    if args.len() > 0 {
        lemma_call_argument_count(types, args.drop_last(), params.drop_last());
        lemma_param_slots_len(types, params.last());
    }
}

/// Constructing variant `k` of an enum stores `k` at the member that reading
/// the tag of an enum of the same type loads, whatever the variant.
pub proof fn lemma_tag_round_trip(
    types: Seq<Type>,
    enum_ty: TypeId,
    dst: Operand,
    k: u32,
    cur: usize,
    at: int,
    written: Seq<Inst>,
    read_cur: usize,
    read: Seq<Inst>,
    r: Operand,
)
    requires
        tag_stored(types, enum_ty, dst, k, cur, at, written),
        tag_loaded(types, enum_ty, read_cur, read, r),
    ensures
        written[at] matches Inst::FieldAddr(tw, _, fw) && read[read.len() - 2] matches Inst::FieldAddr(tr, _, fr) && tw == tr && fw == fr,
        written[at + 1] matches Inst::Store(v, _) && v == Operand::Int(LType::Int(8), k as u64),
        read.last() matches Inst::Load(t, _) && t == LType::Int(8),
{
}

proof fn lemma_settled_trans(a: FuncLowering, b: FuncLowering, c: FuncLowering)
    requires
        a.settled(b),
        b.settled(c),
    ensures
        a.settled(c),
{
}

proof fn lemma_same_shape(a: FuncLowering, b: FuncLowering)
    requires
        a.same_shape(b),
    ensures
        a.grows(b),
        a.settled(b),
        a.jumps_since(b),
{
    assert forall|x: int|
        0 <= x < b.n_blocks() && (x >= a.n_blocks() || a.is_open(x)) implies (#[trigger] b.func.blocks@[x].term matches Some(t) ==> jumps_fresh(t, a.n_blocks(), a.loop_targets())) by {
        assert(b.func.blocks@[x].term == a.func.blocks@[x].term);
    }
}

/// The body can be lowered: the type table is well formed and well founded, the body belongs
/// to a declared function, every type id it and its declaration name is in
/// the table, and every statement can be lowered outside any loop.
pub open spec fn function_ok(m: Module, body: FuncBody) -> bool {
    &&& table_valid(m.types@)
    &&& well_founded(m.types@)
    &&& body.id < m.func_decls@.len()
    &&& ids_valid(m.types@, m.func_decls@[body.id as int].ty.params@)
    &&& m.func_decls@[body.id as int].ty.ret < m.types@.len()
    &&& ids_valid(m.types@, body.locals@)
    &&& stmts_ok(m, body.locals@.len(), m.func_decls@[body.id as int].ty.params@, body.body.stmts@, 0)
}

/// The declared parameter types of the function that `body` belongs to.
pub open spec fn body_params(m: Module, body: FuncBody) -> Seq<TypeId> {
    m.func_decls@[body.id as int].ty.params@
}

/// The return slot of the function that `body` belongs to: the machine
/// parameter after all the others, when it returns an aggregate.
pub open spec fn body_slot(m: Module, body: FuncBody) -> Option<usize> {
    let ft = m.func_decls@[body.id as int].ty;
    if kind_of(m.types@[ft.ret as int]) == TypeKind::Aggregate {
        Some(slot_count(m.types@, ft.params@) as usize)
    } else {
        None
    }
}

/// Lowers the body of a declared function. Locals are allocated once, on
/// entry; a body that runs off its end returns nothing. Every block of the
/// result ends in exactly one terminator that jumps within the function.
/// `f` is the lowering of `body`: every block ends in one terminator that
/// jumps within the function, the locals are the body's, and a body of
/// assignments and expression statements, possibly ending in a `return`,
/// is one block holding their instructions in order and ending in that
/// return, or in a return with no value.
pub open spec fn body_lowered(m: Module, body: FuncBody, f: LFunction) -> bool {
    &&& all_closed(f.blocks@)
    &&& f.locals@ == body.locals@
    &&& f.blocks@.len() >= 1
    &&& all_simple(body.body.stmts@) ==> f.blocks@.len() == 1
        && insts_view(f.blocks@[0].insts@) == straight_low(m, body_params(m, body), 0, 0, body.body.stmts@)
        && f.blocks@[0].term == Some(Term::RetVoid)
    &&& body.body.stmts@.len() > 0 && all_simple(body.body.stmts@.drop_last()) && body.body.stmts@.last() is Return ==> f.blocks@.len() == 1
        && insts_view(f.blocks@[0].insts@) == straight_low(m, body_params(m, body), 0, 0, body.body.stmts@.drop_last()) + expr_low(m, body_params(m, body), 0, straight_low(m, body_params(m, body), 0, 0, body.body.stmts@.drop_last()).len() as int, body.body.stmts@.last()->Return_0, slot_op(body_slot(m, body))).0
        && f.blocks@[0].term == Some(ret_term(expr_low(m, body_params(m, body), 0, straight_low(m, body_params(m, body), 0, 0, body.body.stmts@.drop_last()).len() as int, body.body.stmts@.last()->Return_0, slot_op(body_slot(m, body))).1))
}

pub fn lower_function(m: &Module, body: &FuncBody) -> (r: Result<LFunction, LowerError>)
    ensures
        r matches Ok(f) ==> body_lowered(*m, *body, f),
        r is Ok <==> function_ok(*m, *body),
        r is Ok && all_simple(body.body.stmts@) ==> r->Ok_0.blocks@.len() == 1
            && insts_view(r->Ok_0.blocks@[0].insts@) == straight_low(*m, body_params(*m, *body), 0, 0, body.body.stmts@)
            && r->Ok_0.blocks@[0].term == Some(Term::RetVoid),
        r is Ok && body.body.stmts@.len() > 0 && all_simple(body.body.stmts@.drop_last()) && body.body.stmts@.last() is Return ==> r->Ok_0.blocks@.len() == 1
            && insts_view(r->Ok_0.blocks@[0].insts@) == straight_low(*m, body_params(*m, *body), 0, 0, body.body.stmts@.drop_last()) + expr_low(*m, body_params(*m, *body), 0, straight_low(*m, body_params(*m, *body), 0, 0, body.body.stmts@.drop_last()).len() as int, body.body.stmts@.last()->Return_0, slot_op(body_slot(*m, *body))).0
            && r->Ok_0.blocks@[0].term == Some(ret_term(expr_low(*m, body_params(*m, *body), 0, straight_low(*m, body_params(*m, *body), 0, 0, body.body.stmts@.drop_last()).len() as int, body.body.stmts@.last()->Return_0, slot_op(body_slot(*m, *body))).1)),
{
    if !types_valid(&m.types) || body.id >= m.func_decls.len() {
        return Err(LowerError::BadReference);
    }
    if !types_well_founded(&m.types) {
        return Err(LowerError::CyclicType);
    }
    let ft = &m.func_decls[body.id].ty;
    let params = &ft.params;
    if !ids_below(params, m.types.len()) || ft.ret >= m.types.len() || !ids_below(&body.locals, m.types.len()) {
        return Err(LowerError::BadReference);
    }
    let sret = match crate::abi::kind_at(&m.types, ft.ret) {
        TypeKind::Aggregate => Some(abi_index(&m.types, params, params.len())),
        _ => None,
    };
    let mut locals: Vec<TypeId> = Vec::new();
    let mut i: usize = 0;
    while i < body.locals.len()
        invariant
            i <= body.locals@.len(),
            locals@ == body.locals@.take(i as int),
        decreases body.locals@.len() - i,
    {
        locals.push(body.locals[i]);
        assert(body.locals@.take(i as int + 1) == body.locals@.take(i as int).push(body.locals@[i as int]));
        i = i + 1;
    }
    assert(body.locals@.take(body.locals@.len() as int) == body.locals@);
    let mut blocks: Vec<LBlock> = Vec::new();
    blocks.push(LBlock { insts: Vec::new(), term: None });
    let mut st = FuncLowering {
        func: LFunction { locals, blocks },
        cur: 0,
        break_dest: Vec::new(),
        continue_dest: Vec::new(),
        sret,
    };
    let ghost s0 = st;
    proof {
        assert(params@.take(params@.len() as int) =~= params@);
        assert(s0.cur_view() =~= seq![]);
    }
    st.lower_stmts(m, params, &body.body.stmts)?;
    let ghost s1 = st;
    st.terminate(Term::RetVoid);
    proof {
        assert forall|b: int| 0 <= b < st.n_blocks() implies #[trigger] crate::lir::closed(st.func.blocks@, b) by {
            if b != st.cur {
                assert(st.func.blocks@[b] == s1.func.blocks@[b]);
                assert(!s1.is_open(b));
            }
        }
    }
    Ok(st.func)
}

/// `e` has an address: the lowering of it as a place succeeds. `nl` is the
/// number of local slots and `ps` the declared parameter types of the
/// function.
pub open spec fn place_ok(m: Module, nl: nat, ps: Seq<TypeId>, e: Expr) -> bool
    decreases e, 0int,
{
    let types = m.types@;
    match e.kind {
        ExprKind::Local(i) => i < nl,
        ExprKind::Param(i) => e.ty < types.len() && (types[e.ty as int] is Pointer || kind_of(types[e.ty as int])
            == TypeKind::Aggregate) && i < ps.len(),
        ExprKind::Index(p, i) => p.ty < types.len() && match types[p.ty as int] {
            Type::Pointer(_) => scalar_ok(m, nl, ps, *p),
            Type::Array(_, _) => place_ok(m, nl, ps, *p),
            _ => false,
        } && scalar_ok(m, nl, ps, *i),
        ExprKind::Field(x, _) => x.ty < types.len() && match types[x.ty as int] {
            Type::Tuple(_) | Type::Struct(_) => place_ok(m, nl, ps, *x),
            Type::Pointer(t) => t < types.len() && (types[t as int] is Tuple || types[t as int] is Struct) && scalar_ok(m, nl, ps, *x),
            _ => false,
        },
        ExprKind::Unary(Unop::Deref, p) => scalar_ok(m, nl, ps, *p),
        ExprKind::Func(i) => i < m.func_decls@.len(),
        ExprKind::EnumField(x, k, _) => x.ty < types.len() && match types[x.ty as int] {
            Type::Enum(et) => k < et.variants@.len() && place_ok(m, nl, ps, *x),
            _ => false,
        },
        _ => false,
    }
}

/// `e` is a call that can be lowered.
pub open spec fn call_ok(m: Module, nl: nat, ps: Seq<TypeId>, e: Expr) -> bool
    decreases e, 0int,
{
    let types = m.types@;
    match e.kind {
        ExprKind::Call(func, args) => func.ty < types.len() && match types[func.ty as int] {
            Type::Func(_) => true,
            Type::Pointer(t) => t < types.len() && types[t as int] is Func,
            _ => false,
        } && scalar_ok(m, nl, ps, *func) && forall|i: int| 0 <= i < args@.len() ==> expr_ok(m, nl, ps, #[trigger] args@[i]),
        _ => false,
    }
}

/// `e` can be lowered for its effects as a unit value.
pub open spec fn unit_ok(m: Module, nl: nat, ps: Seq<TypeId>, e: Expr) -> bool
    decreases e, 1int,
{
    match e.kind {
        ExprKind::Unit => true,
        ExprKind::Call(_, _) => call_ok(m, nl, ps, e),
        _ => false,
    }
}

/// `e` can be written into storage as an aggregate.
pub open spec fn aggregate_ok(m: Module, nl: nat, ps: Seq<TypeId>, e: Expr) -> bool
    decreases e, 1int,
{
    let types = m.types@;
    match e.kind {
        ExprKind::Tuple(elems) => elems@.len() <= 0x1_0000_0000 && forall|i: int| 0 <= i < elems@.len() ==> expr_ok(m, nl, ps, #[trigger] elems@[i]),
        ExprKind::Struct(fields) => forall|i: int| 0 <= i < fields@.len() ==> expr_ok(m, nl, ps, (#[trigger] fields@[i]).1),
        ExprKind::Array(elems) => elems@.len() <= 0x1_0000_0000 && forall|i: int| 0 <= i < elems@.len() ==> expr_ok(m, nl, ps, #[trigger] elems@[i]),
        ExprKind::Call(_, _) => call_ok(m, nl, ps, e),
        ExprKind::Param(i) => i < ps.len() && e.ty < types.len(),
        ExprKind::Unary(Unop::Deref, p) => scalar_ok(m, nl, ps, *p) && e.ty < types.len(),
        ExprKind::EnumCall(k, args) => e.ty < types.len() && match types[e.ty as int] {
            Type::Enum(et) => k < et.variants@.len(),
            _ => false,
        } && args@.len() <= 0x1_0000_0000 && forall|i: int| 0 <= i < args@.len() ==> expr_ok(m, nl, ps, #[trigger] args@[i]),
        ExprKind::Field(_, _) | ExprKind::Index(_, _) | ExprKind::Local(_) => place_ok(m, nl, ps, e) && e.ty < types.len(),
        _ => false,
    }
}

/// `e` can be lowered to an immediate value.
pub open spec fn scalar_ok(m: Module, nl: nat, ps: Seq<TypeId>, e: Expr) -> bool
    decreases e, 1int,
{
    let types = m.types@;
    match e.kind {
        ExprKind::Index(_, _) | ExprKind::Field(_, _) | ExprKind::EnumField(_, _, _) => place_ok(m, nl, ps, e),
        ExprKind::Float(_) | ExprKind::Integer(_) | ExprKind::Bool(_) | ExprKind::Null | ExprKind::Char(_) => true,
        ExprKind::Local(i) => i < nl,
        ExprKind::Param(i) => i < ps.len(),
        ExprKind::Func(i) => i < m.func_decls@.len(),
        ExprKind::Binary(op, x, y) => x.ty < types.len() && match scalar_kind_of(types[x.ty as int]) {
            Some(k) => match binary_lowering(op, k) {
                Some(l) => scalar_ok(m, nl, ps, *x) && scalar_ok(m, nl, ps, *y) && match l {
                    BinaryLowering::PointerOffset => e.ty < types.len() && types[e.ty as int] is Pointer,
                    BinaryLowering::PointerDiff => types[x.ty as int] is Pointer,
                    _ => true,
                },
                None => false,
            },
            None => false,
        },
        ExprKind::String(lit) => lit@.len() >= 2,
        ExprKind::Call(_, _) => call_ok(m, nl, ps, e),
        ExprKind::Cast(x, t) => x.ty < types.len() && t < types.len() && cast_lowering(types[x.ty as int], types[t as int]) is Some
            && scalar_ok(m, nl, ps, *x),
        ExprKind::Unary(Unop::AddressOf, x) => place_ok(m, nl, ps, *x),
        ExprKind::Unary(Unop::Deref, p) => scalar_ok(m, nl, ps, *p),
        ExprKind::Sizeof(t) => t < types.len(),
        ExprKind::Const(i) => i < m.consts@.len(),
        ExprKind::EnumVariant(_) => e.ty < types.len() && types[e.ty as int] is I8,
        ExprKind::EnumTag(en) => en.ty < types.len() && types[en.ty as int] is Enum && place_ok(m, nl, ps, *en),
        _ => false,
    }
}

/// `e` can be lowered by its classification.
pub open spec fn expr_ok(m: Module, nl: nat, ps: Seq<TypeId>, e: Expr) -> bool
    decreases e, 2int,
{
    e.ty < m.types@.len() && match kind_of(m.types@[e.ty as int]) {
        TypeKind::Unit => unit_ok(m, nl, ps, e),
        TypeKind::Aggregate => aggregate_ok(m, nl, ps, e),
        TypeKind::Scalar => scalar_ok(m, nl, ps, e),
    }
}

/// `s` can be lowered inside `depth` enclosing loops.
pub open spec fn stmt_ok(m: Module, nl: nat, ps: Seq<TypeId>, s: Stmt, depth: nat) -> bool
    decreases s,
{
    match s {
        Stmt::Break | Stmt::Continue => depth > 0,
        Stmt::For(init, cond, post, body) => {
            &&& forall|i: int| 0 <= i < init@.len() ==> stmt_ok(m, nl, ps, #[trigger] init@[i], depth)
            &&& scalar_ok(m, nl, ps, cond)
            &&& forall|i: int| 0 <= i < body.stmts@.len() ==> stmt_ok(m, nl, ps, #[trigger] body.stmts@[i], depth + 1)
            &&& forall|i: int| 0 <= i < post@.len() ==> stmt_ok(m, nl, ps, #[trigger] post@[i], depth)
        },
        Stmt::While(cond, body) => scalar_ok(m, nl, ps, cond) && forall|i: int|
            0 <= i < body.stmts@.len() ==> stmt_ok(m, nl, ps, #[trigger] body.stmts@[i], depth + 1),
        Stmt::If(cond, body) => scalar_ok(m, nl, ps, cond) && forall|i: int|
            0 <= i < body.stmts@.len() ==> stmt_ok(m, nl, ps, #[trigger] body.stmts@[i], depth),
        Stmt::Assign(place, value) => place_ok(m, nl, ps, place) && expr_ok(m, nl, ps, value),
        Stmt::Return(value) | Stmt::Expr(value) => expr_ok(m, nl, ps, value),
    }
}

/// Every statement of `ss` can be lowered inside `depth` enclosing loops.
pub open spec fn stmts_ok(m: Module, nl: nat, ps: Seq<TypeId>, ss: Seq<Stmt>, depth: nat) -> bool {
    forall|i: int| 0 <= i < ss.len() ==> stmt_ok(m, nl, ps, #[trigger] ss[i], depth)
}

} // verus!
