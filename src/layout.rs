//! How each type is represented by the backend, and the layout of enums.

use vstd::prelude::*;
use crate::abi::{abi_return, abi_signature, ids_valid, signature_params, AbiSignature};
use crate::ir::{EnumType, StructType, Type, TypeId};

verus! {

/// The backend representation of a type. Struct and enum types are named
/// records whose bodies are set once every type has a representation, so
/// that types may refer to one another in any order.
#[derive(Clone, Debug, PartialEq, Eq)]
pub enum LowType {
    /// An integer of the given width in bits.
    Int(u32),
    Float,
    Double,
    Void,
    /// A pointer to the representation of the given type.
    Pointer(TypeId),
    /// A function, with its machine signature.
    Function(AbiSignature),
    /// A named record; its body is given by `struct_body` or `enum_layout`.
    Named(String),
    /// The given number of elements of the given type.
    Array(TypeId, u32),
    /// An anonymous record with members of the given types, in order.
    Record(Vec<TypeId>),
}

/// Every id that a type mentions names an entry of the table.
pub open spec fn type_refs_valid(types: Seq<Type>, ty: Type) -> bool {
    match ty {
        Type::Pointer(t) => t < types.len(),
        Type::Func(ft) => ids_valid(types, ft.params@) && ft.ret < types.len(),
        Type::Struct(st) => forall|i: int| 0 <= i < st.fields@.len() ==> #[trigger] st.fields@[i].1 < types.len(),
        Type::Enum(et) => forall|k: int| 0 <= k < et.variants@.len() ==> ids_valid(types, #[trigger] et.variants@[k].args@),
        Type::Array(t, _) => t < types.len(),
        Type::Tuple(ts) => ids_valid(types, ts@),
        _ => true,
    }
}

/// A well-formed type table: every type refers only to entries of the table.
pub open spec fn table_valid(types: Seq<Type>) -> bool {
    forall|i: int| 0 <= i < types.len() ==> type_refs_valid(types, #[trigger] types[i])
}

/// `r` is the representation of type `ty` of the table.
pub open spec fn represents(types: Seq<Type>, ty: Type, r: LowType) -> bool {
    match ty {
        Type::Bool => r == LowType::Int(1),
        Type::I8 => r == LowType::Int(8),
        Type::I16 => r == LowType::Int(16),
        Type::I32 => r == LowType::Int(32),
        Type::I64 => r == LowType::Int(64),
        Type::F32 => r is Float,
        Type::F64 => r is Double,
        Type::Unit => r is Void,
        Type::Pointer(t) => r == LowType::Pointer(t),
        Type::Func(ft) => r matches LowType::Function(sig) && sig.params@ == signature_params(
            types,
            ft.params@,
            ft.ret,
        ) && sig.ret == abi_return(types, ft.ret) && sig.var_args == ft.var_args,
        Type::Struct(st) => r matches LowType::Named(n) && n@ == st.name@,
        Type::Enum(et) => r matches LowType::Named(n) && n@ == et.name@,
        Type::Array(t, n) => r == LowType::Array(t, n),
        Type::Tuple(ts) => r matches LowType::Record(ms) && ms@ == ts@,
    }
}

/// The representation of type `id`, before any record body is known.
pub fn lower_type(types: &Vec<Type>, id: TypeId) -> (r: LowType)
    requires
        id < types@.len(),
        table_valid(types@),
    ensures
        represents(types@, types@[id as int], r),
{
    assert(type_refs_valid(types@, types@[id as int]));
    match &types[id] {
        Type::Bool => LowType::Int(1),
        Type::I8 => LowType::Int(8),
        Type::I16 => LowType::Int(16),
        Type::I32 => LowType::Int(32),
        Type::I64 => LowType::Int(64),
        Type::F32 => LowType::Float,
        Type::F64 => LowType::Double,
        Type::Unit => LowType::Void,
        Type::Pointer(t) => LowType::Pointer(*t),
        Type::Func(ft) => LowType::Function(abi_signature(types, ft)),
        Type::Struct(st) => LowType::Named(st.name.clone()),
        Type::Enum(et) => LowType::Named(et.name.clone()),
        Type::Array(t, n) => LowType::Array(*t, *n),
        Type::Tuple(ts) => LowType::Record(ts.clone()),
    }
}

/// The member types of a struct's record body, in declared order.
pub fn struct_body(st: &StructType) -> (r: Vec<TypeId>)
    ensures
        r@.len() == st.fields@.len(),
        forall|i: int| 0 <= i < r@.len() ==> #[trigger] r@[i] == st.fields@[i].1,
{
    let mut r: Vec<TypeId> = Vec::new();
    let mut i: usize = 0;
    while i < st.fields.len()
        invariant
            i <= st.fields@.len(),
            r@.len() == i,
            forall|j: int| 0 <= j < i ==> #[trigger] r@[j] == st.fields@[j].1,
        decreases st.fields@.len() - i,
    {
        r.push(st.fields[i].1);
        i = i + 1;
    }
    r
}

/// Some variant of the enum carries arguments, so its storage has a payload.
pub open spec fn has_payload(et: EnumType) -> bool {
    exists|k: int| 0 <= k < et.variants@.len() && #[trigger] et.variants@[k].args@.len() > 0
}

/// The position of the tag among the enum's record members; the same for
/// every variant.
pub open spec fn tag_field(et: EnumType) -> u32 {
    if has_payload(et) {
        1
    } else {
        0
    }
}

/// `k` is the first position that holds the largest of `sizes`.
pub open spec fn first_largest(sizes: Seq<u64>, k: int) -> bool {
    &&& 0 <= k < sizes.len()
    &&& forall|j: int| 0 <= j < sizes.len() ==> #[trigger] sizes[j] <= sizes[k]
    &&& forall|j: int| 0 <= j < k ==> #[trigger] sizes[j] < sizes[k]
}

/// A variant with arguments gives the enum a payload, and then the tag sits
/// at member 1, apart from the payload at member 0: writing a variant's
/// arguments never overwrites the tag.
pub proof fn lemma_tag_apart_from_payload(et: EnumType, k: int)
    requires
        0 <= k < et.variants@.len(),
        et.variants@[k].args@.len() > 0,
    ensures
        has_payload(et),
        tag_field(et) == 1,
{
}

/// Whether the enum has a payload member.
pub fn enum_has_payload(et: &EnumType) -> (r: bool)
    ensures
        r == has_payload(*et),
{
    let mut i: usize = 0;
    while i < et.variants.len()
        invariant
            i <= et.variants@.len(),
            forall|k: int| 0 <= k < i ==> #[trigger] et.variants@[k].args@.len() == 0,
        decreases et.variants@.len() - i,
    {
        if et.variants[i].args.len() > 0 {
            return true;
        }
        i = i + 1;
    }
    false
}

/// The tag's member position for every variant of the enum: 1 after a
/// payload, else 0.
pub fn tag_index(et: &EnumType) -> (r: u32)
    ensures
        r == tag_field(*et),
{
    if enum_has_payload(et) {
        1
    } else {
        0
    }
}

/// The first position of the largest size; `None` when there is none.
pub fn largest_variant(sizes: &Vec<u64>) -> (r: Option<usize>)
    ensures
        r is None <==> sizes@.len() == 0,
        r matches Some(k) ==> first_largest(sizes@, k as int),
{
    if sizes.len() == 0 {
        return None;
    }
    let mut best: usize = 0;
    let mut i: usize = 1;
    while i < sizes.len()
        invariant
            1 <= i <= sizes@.len(),
            best < i,
            forall|j: int| 0 <= j < i ==> #[trigger] sizes@[j] <= sizes@[best as int],
            forall|j: int| 0 <= j < best ==> #[trigger] sizes@[j] < sizes@[best as int],
        decreases sizes@.len() - i,
    {
        if sizes[i] > sizes[best] {
            best = i;
        }
        i = i + 1;
    }
    Some(best)
}

/// The storage of an enum: the record of the variant `payload`, if any,
/// followed by a one-byte tag at member `tag_index`.
#[derive(PartialEq, Eq, Structural, Clone, Copy, Debug)]
pub struct EnumLayout {
    pub payload: Option<u32>,
    pub tag_index: u32,
}

/// The layout of an enum, given the storage size of each variant's record.
/// The payload is the first variant whose record is largest, and is left out
/// when no variant has arguments.
pub fn enum_layout(et: &EnumType, sizes: &Vec<u64>) -> (r: EnumLayout)
    requires
        sizes@.len() == et.variants@.len(),
        et.variants@.len() <= u32::MAX,
    ensures
        r.tag_index == tag_field(*et),
        r.payload is Some <==> has_payload(*et),
        r.payload matches Some(k) ==> first_largest(sizes@, k as int),
{
    let tag = tag_index(et);
    if tag == 0 {
        return EnumLayout { payload: None, tag_index: 0 };
    }
    let k = largest_variant(sizes);
    match k {
        Some(k) => EnumLayout { payload: Some(k as u32), tag_index: 1 },
        None => EnumLayout { payload: None, tag_index: 1 },
    }
}

/// The members of the record body of the enum of type `enum_ty`: the
/// payload variant's record, if there is one, then the one-byte tag.
pub fn enum_members(enum_ty: TypeId, layout: EnumLayout) -> (r: Vec<crate::lir::LType>)
    ensures
        r@ == match layout.payload {
            Some(k) => seq![crate::lir::LType::VariantRecord(enum_ty, k), crate::lir::LType::Int(8)],
            None => seq![crate::lir::LType::Int(8)],
        },
{
    let mut r: Vec<crate::lir::LType> = Vec::new();
    if let Some(k) = layout.payload {
        r.push(crate::lir::LType::VariantRecord(enum_ty, k));
    }
    r.push(crate::lir::LType::Int(8));
    proof {
        assert(r@ =~= match layout.payload {
            Some(k) => seq![crate::lir::LType::VariantRecord(enum_ty, k), crate::lir::LType::Int(8)],
            None => seq![crate::lir::LType::Int(8)],
        });
    }
    r
}

/// Of an enum whose variant `k` has arguments and a record strictly larger
/// than that of every other variant, the payload is that variant's record,
/// so the storage is sized to hold every argument of it.
pub proof fn lemma_strictly_largest_is_payload(et: EnumType, sizes: Seq<u64>, k: int)
    requires
        sizes.len() == et.variants@.len(),
        0 <= k < sizes.len(),
        et.variants@[k].args@.len() > 0,
        forall|j: int| 0 <= j < sizes.len() && j != k ==> #[trigger] sizes[j] < sizes[k],
    ensures
        has_payload(et),
        forall|p: int| first_largest(sizes, p) ==> p == k,
{
    assert(et.variants@[k].args@.len() > 0);
    assert forall|p: int| first_largest(sizes, p) implies p == k by {
        if p != k {
            assert(sizes[k] <= sizes[p]);
            assert(sizes[p] < sizes[k]);
        }
    }
}

/// Every id of `ids` is below `n`.
pub fn ids_below(ids: &Vec<TypeId>, n: usize) -> (r: bool)
    ensures
        r == forall|i: int| 0 <= i < ids@.len() ==> #[trigger] ids@[i] < n,
{
    let mut i: usize = 0;
    while i < ids.len()
        invariant
            i <= ids@.len(),
            forall|j: int| 0 <= j < i ==> #[trigger] ids@[j] < n,
        decreases ids@.len() - i,
    {
        if ids[i] >= n {
            return false;
        }
        i = i + 1;
    }
    true
}

/// Whether a type refers only to ids below `n`.
fn type_refs_below(types: &Vec<Type>, ty: &Type) -> (r: bool)
    ensures
        r == type_refs_valid(types@, *ty),
{
    let n = types.len();
    match ty {
        Type::Pointer(t) => *t < n,
        Type::Func(ft) => ids_below(&ft.params, n) && ft.ret < n,
        Type::Struct(st) => {
            let mut i: usize = 0;
            while i < st.fields.len()
                invariant
                    n == types@.len(),
                    *ty == Type::Struct(*st),
                    i <= st.fields@.len(),
                    forall|j: int| 0 <= j < i ==> #[trigger] st.fields@[j].1 < n,
                decreases st.fields@.len() - i,
            {
                if st.fields[i].1 >= n {
                    assert(!(st.fields@[i as int].1 < types@.len()));
                    assert(ty->Struct_0 == *st);
                    return false;
                }
                i = i + 1;
            }
            true
        },
        Type::Enum(et) => {
            let mut k: usize = 0;
            while k < et.variants.len()
                invariant
                    n == types@.len(),
                    *ty == Type::Enum(*et),
                    k <= et.variants@.len(),
                    forall|j: int| 0 <= j < k ==> forall|i: int| 0 <= i < (#[trigger] et.variants@[j]).args@.len() ==> #[trigger] et.variants@[j].args@[i] < n,
                decreases et.variants@.len() - k,
            {
                if !ids_below(&et.variants[k].args, n) {
                    assert(!ids_valid(types@, et.variants@[k as int].args@));
                    assert(ty->Enum_0 == *et);
                    return false;
                }
                k = k + 1;
            }
            true
        },
        Type::Array(t, _) => *t < n,
        Type::Tuple(ts) => ids_below(ts, n),
        _ => true,
    }
}

/// Whether every type of the table refers only to types of the table.
pub fn types_valid(types: &Vec<Type>) -> (r: bool)
    ensures
        r == table_valid(types@),
{
    let mut i: usize = 0;
    while i < types.len()
        invariant
            i <= types@.len(),
            forall|j: int| 0 <= j < i ==> type_refs_valid(types@, #[trigger] types@[j]),
        decreases types@.len() - i,
    {
        if !type_refs_below(types, &types[i]) {
            assert(!type_refs_valid(types@, types@[i as int]));
            return false;
        }
        i = i + 1;
    }
    true
}

/// The types that the representation of `ty` is built from directly: the
/// pointee, the element type, the members of a tuple, the parameter and
/// result types of a function. A struct or an enum is a named record whose
/// body comes later, so it is built from none.
pub open spec fn rep_refs(ty: Type) -> Seq<TypeId> {
    match ty {
        Type::Pointer(t) => seq![t],
        Type::Array(t, _) => seq![t],
        Type::Tuple(ts) => ts@,
        Type::Func(ft) => ft.params@.push(ft.ret),
        _ => seq![],
    }
}

/// Every chain of those references from type `id` ends within `fuel` steps.
pub open spec fn rep_finite(types: Seq<Type>, id: int, fuel: nat) -> bool
    decreases fuel,
{
    fuel > 0 && 0 <= id < types.len() && forall|j: int|
        #![trigger rep_refs(types[id])[j]] 0 <= j < rep_refs(types[id]).len() ==> rep_finite(types, rep_refs(types[id])[j] as int, (fuel - 1) as nat)
}

/// No type's representation is built, through pointers, arrays, tuples and
/// function types, from itself: every chain of references ends within as
/// many steps as the table has types.
pub open spec fn well_founded(types: Seq<Type>) -> bool {
    forall|i: int| 0 <= i < types.len() ==> #[trigger] rep_finite(types, i, types.len())
}

/// Whether every type that `ty` is built from is marked in `ready`.
fn refs_ready(types: &Vec<Type>, ty: &Type, ready: &Vec<bool>) -> (r: bool)
    requires
        type_refs_valid(types@, *ty),
        ready@.len() == types@.len(),
    ensures
        r == forall|j: int| #![trigger rep_refs(*ty)[j]] 0 <= j < rep_refs(*ty).len() ==> ready@[rep_refs(*ty)[j] as int],
{
    match ty {
        Type::Pointer(t) => {
            assert(rep_refs(*ty) =~= seq![*t]);
            assert(rep_refs(*ty)[0] == *t);
            ready[*t]
        },
        Type::Array(t, _) => {
            assert(rep_refs(*ty) =~= seq![*t]);
            assert(rep_refs(*ty)[0] == *t);
            ready[*t]
        },
        Type::Tuple(ts) => {
            let mut i: usize = 0;
            while i < ts.len()
                invariant
                    *ty == Type::Tuple(*ts),
                    ids_valid(types@, ts@),
                    ready@.len() == types@.len(),
                    i <= ts@.len(),
                    forall|j: int| 0 <= j < i ==> ready@[#[trigger] ts@[j] as int],
                decreases ts@.len() - i,
            {
                if !ready[ts[i]] {
                    assert(rep_refs(*ty)[i as int] == ts@[i as int]);
                    return false;
                }
                i = i + 1;
            }
            true
        },
        Type::Func(ft) => {
            let mut i: usize = 0;
            while i < ft.params.len()
                invariant
                    *ty == Type::Func(*ft),
                    ids_valid(types@, ft.params@),
                    ready@.len() == types@.len(),
                    i <= ft.params@.len(),
                    forall|j: int| 0 <= j < i ==> ready@[#[trigger] ft.params@[j] as int],
                decreases ft.params@.len() - i,
            {
                if !ready[ft.params[i]] {
                    assert(rep_refs(*ty)[i as int] == ft.params@[i as int]);
                    return false;
                }
                i = i + 1;
            }
            let ghost refs = rep_refs(*ty);
            assert(refs[ft.params@.len() as int] == ft.ret);
            if !ready[ft.ret] {
                return false;
            }
            assert forall|j: int| #![trigger refs[j]] 0 <= j < refs.len() implies ready@[refs[j] as int] by {
                if j < ft.params@.len() {
                    assert(refs[j] == ft.params@[j]);
                }
            }
            true
        },
        _ => true,
    }
}

/// Whether the representations of the table's types are well founded.
pub fn types_well_founded(types: &Vec<Type>) -> (r: bool)
    requires
        table_valid(types@),
    ensures
        r == well_founded(types@),
{
    let n = types.len();
    let mut ready: Vec<bool> = Vec::new();
    let mut i: usize = 0;
    while i < n
        invariant
            n == types@.len(),
            i <= n,
            ready@.len() == i,
            forall|j: int| 0 <= j < i ==> ready@[j] == rep_finite(types@, j, 0),
        decreases n - i,
    {
        ready.push(false);
        i = i + 1;
    }
    let mut round: usize = 0;
    while round < n
        invariant
            n == types@.len(),
            table_valid(types@),
            round <= n,
            ready@.len() == n,
            forall|j: int| 0 <= j < n ==> ready@[j] == rep_finite(types@, j, round as nat),
        decreases n - round,
    {
        let mut next: Vec<bool> = Vec::new();
        let mut i: usize = 0;
        while i < n
            invariant
                n == types@.len(),
                table_valid(types@),
                i <= n,
                ready@.len() == n,
                next@.len() == i,
                forall|j: int| 0 <= j < n ==> ready@[j] == rep_finite(types@, j, round as nat),
                forall|j: int| 0 <= j < i ==> next@[j] == rep_finite(types@, j, (round + 1) as nat),
            decreases n - i,
        {
            assert(type_refs_valid(types@, types@[i as int]));
            let b = refs_ready(types, &types[i], &ready);
            proof {
                let refs = rep_refs(types@[i as int]);
                assert forall|j: int| #![trigger refs[j]] 0 <= j < refs.len() implies refs[j] < n by {
                    match types@[i as int] {
                        Type::Func(ft) => {
                            if j < ft.params@.len() {
                                assert(refs[j] == ft.params@[j]);
                            } else {
                                assert(refs[j] == ft.ret);
                            }
                        },
                        _ => {},
                    }
                }
                assert(b == rep_finite(types@, i as int, (round + 1) as nat));
            }
            next.push(b);
            i = i + 1;
        }
        ready = next;
        round = round + 1;
    }
    let mut i: usize = 0;
    while i < n
        invariant
            n == types@.len(),
            ready@.len() == n,
            i <= n,
            forall|j: int| 0 <= j < n ==> ready@[j] == rep_finite(types@, j, n as nat),
            forall|j: int| 0 <= j < i ==> #[trigger] rep_finite(types@, j, types@.len()),
        decreases n - i,
    {
        if !ready[i] {
            return false;
        }
        i = i + 1;
    }
    true
}

} // verus!
