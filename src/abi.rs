//! The calling convention: which declared parameters get a machine slot, how
//! each is passed, and how the result comes back.

use vstd::prelude::*;
use crate::ir::{kind_of, FuncType, Type, TypeId, TypeKind};

verus! {

/// How one machine parameter is passed.
#[derive(PartialEq, Eq, Structural, Clone, Copy, Debug)]
pub enum AbiParam {
    /// The value itself, for a scalar of the given type.
    Value(TypeId),
    /// A pointer to storage that holds a value of the given type.
    Address(TypeId),
}

/// How the result of a call comes back.
#[derive(PartialEq, Eq, Structural, Clone, Copy, Debug)]
pub enum AbiReturn {
    /// No value: the return type is unit.
    Nothing,
    /// A scalar of the given type, returned directly.
    Value(TypeId),
    /// Written by the callee through the trailing pointer parameter.
    Slot(TypeId),
}

/// The machine-level signature of a function type.
#[derive(Clone, Debug, PartialEq, Eq)]
pub struct AbiSignature {
    /// Every machine parameter, the indirect-return slot last where there is one.
    pub params: Vec<AbiParam>,
    pub ret: AbiReturn,
    pub var_args: bool,
}

/// Every id in `ids` names an entry of the type table.
pub open spec fn ids_valid(types: Seq<Type>, ids: Seq<TypeId>) -> bool {
    forall|i: int| 0 <= i < ids.len() ==> #[trigger] ids[i] < types.len()
}

/// The machine parameters that one declared parameter of type `t` takes.
pub open spec fn param_slots(types: Seq<Type>, t: TypeId) -> Seq<AbiParam> {
    match kind_of(types[t as int]) {
        TypeKind::Unit => seq![],
        TypeKind::Aggregate => seq![AbiParam::Address(t)],
        TypeKind::Scalar => seq![AbiParam::Value(t)],
    }
}

/// The machine parameters of the declared parameters `ps`, in order.
pub open spec fn abi_params(types: Seq<Type>, ps: Seq<TypeId>) -> Seq<AbiParam>
    decreases ps.len(),
{
    if ps.len() == 0 {
        seq![]
    } else {
        abi_params(types, ps.drop_last()) + param_slots(types, ps.last())
    }
}

pub open spec fn abi_return(types: Seq<Type>, ret: TypeId) -> AbiReturn {
    match kind_of(types[ret as int]) {
        TypeKind::Unit => AbiReturn::Nothing,
        TypeKind::Aggregate => AbiReturn::Slot(ret),
        TypeKind::Scalar => AbiReturn::Value(ret),
    }
}

/// The machine parameters of a function type, the indirect-return slot included.
pub open spec fn signature_params(types: Seq<Type>, params: Seq<TypeId>, ret: TypeId) -> Seq<AbiParam> {
    abi_params(types, params) + if kind_of(types[ret as int]) == TypeKind::Aggregate {
        seq![AbiParam::Address(ret)]
    } else {
        seq![]
    }
}

/// The number of declared parameters in `ps` that take a machine slot.
pub open spec fn slot_count(types: Seq<Type>, ps: Seq<TypeId>) -> nat {
    abi_params(types, ps).len()
}

pub proof fn lemma_param_slots_len(types: Seq<Type>, t: TypeId)
    ensures
        param_slots(types, t).len() == if kind_of(types[t as int]) == TypeKind::Unit { 0int } else { 1int },
{
}

/// The classification of type `id` of the table.
pub fn kind_at(types: &Vec<Type>, id: TypeId) -> (r: TypeKind)
    requires
        id < types@.len(),
    ensures
        r == kind_of(types@[id as int]),
{
    types[id].kind()
}

/// Derives the machine signature of a function type: unit parameters are
/// dropped, aggregates are passed by address, scalars by value; an aggregate
/// result comes back through a trailing pointer parameter.
pub fn abi_signature(types: &Vec<Type>, ft: &FuncType) -> (r: AbiSignature)
    requires
        ids_valid(types@, ft.params@),
        ft.ret < types@.len(),
    ensures
        r.params@ == signature_params(types@, ft.params@, ft.ret),
        r.ret == abi_return(types@, ft.ret),
        r.var_args == ft.var_args,
{
    let mut params: Vec<AbiParam> = Vec::new();
    let mut i: usize = 0;
    while i < ft.params.len()
        invariant
            i <= ft.params@.len(),
            ids_valid(types@, ft.params@),
            params@ == abi_params(types@, ft.params@.take(i as int)),
        decreases ft.params@.len() - i,
    {
        let t = ft.params[i];
        assert(ft.params@.take(i as int + 1).drop_last() == ft.params@.take(i as int));
        match kind_at(types, t) {
            TypeKind::Unit => {},
            TypeKind::Aggregate => params.push(AbiParam::Address(t)),
            TypeKind::Scalar => params.push(AbiParam::Value(t)),
        }
        i = i + 1;
    }
    assert(ft.params@.take(ft.params@.len() as int) == ft.params@);
    let ret = match kind_at(types, ft.ret) {
        TypeKind::Unit => AbiReturn::Nothing,
        TypeKind::Aggregate => {
            params.push(AbiParam::Address(ft.ret));
            AbiReturn::Slot(ft.ret)
        },
        TypeKind::Scalar => AbiReturn::Value(ft.ret),
    };
    AbiSignature { params, ret, var_args: ft.var_args }
}

/// The machine position of declared parameter `i`: the number of parameters
/// before it that take a slot.
pub fn abi_index(types: &Vec<Type>, params: &Vec<TypeId>, i: usize) -> (r: usize)
    requires
        i <= params@.len(),
        ids_valid(types@, params@),
    ensures
        r == slot_count(types@, params@.take(i as int)),
        r <= i,
{
    let mut n: usize = 0;
    let mut j: usize = 0;
    while j < i
        invariant
            j <= i <= params@.len(),
            ids_valid(types@, params@),
            n == slot_count(types@, params@.take(j as int)),
            n <= j,
        decreases i - j,
    {
        assert(params@.take(j as int + 1).drop_last() == params@.take(j as int));
        if kind_at(types, params[j]) != TypeKind::Unit {
            n = n + 1;
        }
        j = j + 1;
    }
    n
}

/// The symbol that declared function `name` links against. One system C
/// library exports its directory-reading call under a versioned symbol.
pub open spec fn link_name_of(name: Seq<char>, macos: bool) -> Seq<char> {
    if macos && name == "readdir"@ {
        "readdir$INODE64"@
    } else {
        name
    }
}

/// The symbol for a declared function on the given target system.
pub fn link_name(name: &String, macos: bool) -> (r: String)
    ensures
        r@ == link_name_of(name@, macos),
{
    let readdir = "readdir".to_owned();
    if macos && *name == readdir {
        "readdir$INODE64".to_owned()
    } else {
        name.clone()
    }
}

} // verus!
