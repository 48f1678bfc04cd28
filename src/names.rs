//! Tables that a producer of the representation builds it with: a type
//! table that holds each type once, and a table of names in nested scopes.

use vstd::prelude::*;
use crate::ir::{FuncId, FuncType, LocalId, ParamId, Type, TypeId};

verus! {

/// Two types are the same: equal in every part, names by their characters.
pub open spec fn same_type(a: Type, b: Type) -> bool {
    match (a, b) {
        (Type::Bool, Type::Bool) | (Type::I8, Type::I8) | (Type::I16, Type::I16) | (Type::I32, Type::I32)
        | (Type::I64, Type::I64) | (Type::F32, Type::F32) | (Type::F64, Type::F64) | (Type::Unit, Type::Unit) => true,
        (Type::Pointer(x), Type::Pointer(y)) => x == y,
        (Type::Func(f), Type::Func(g)) => same_func_type(f, g),
        (Type::Struct(s), Type::Struct(t)) => {
            &&& s.name@ == t.name@
            &&& s.fields@.len() == t.fields@.len()
            &&& forall|i: int| 0 <= i < s.fields@.len() ==> #[trigger] same_field(s.fields@[i], t.fields@[i])
        },
        (Type::Enum(e), Type::Enum(f)) => {
            &&& e.name@ == f.name@
            &&& e.variants@.len() == f.variants@.len()
            &&& forall|k: int| 0 <= k < e.variants@.len() ==> #[trigger] same_variant(e.variants@[k], f.variants@[k])
        },
        (Type::Array(x, n), Type::Array(y, m)) => x == y && n == m,
        (Type::Tuple(xs), Type::Tuple(ys)) => xs@ == ys@,
        _ => false,
    }
}

pub open spec fn same_field(x: (String, TypeId), y: (String, TypeId)) -> bool {
    x.0@ == y.0@ && x.1 == y.1
}

pub open spec fn same_variant(x: crate::ir::Variant, y: crate::ir::Variant) -> bool {
    x.name@ == y.name@ && x.args@ == y.args@
}

pub open spec fn same_func_type(f: FuncType, g: FuncType) -> bool {
    f.params@ == g.params@ && f.ret == g.ret && f.var_args == g.var_args
}

fn same_ids(a: &Vec<TypeId>, b: &Vec<TypeId>) -> (r: bool)
    ensures
        r == (a@ == b@),
{
    if a.len() != b.len() {
        return false;
    }
    let mut i: usize = 0;
    while i < a.len()
        invariant
            i <= a@.len(),
            a@.len() == b@.len(),
            forall|j: int| 0 <= j < i ==> a@[j] == b@[j],
        decreases a@.len() - i,
    {
        if a[i] != b[i] {
            return false;
        }
        i = i + 1;
    }
    assert(a@ =~= b@);
    true
}

/// Whether two types are the same.
pub fn type_eq(a: &Type, b: &Type) -> (r: bool)
    ensures
        r == same_type(*a, *b),
{
    match (a, b) {
        (Type::Bool, Type::Bool) | (Type::I8, Type::I8) | (Type::I16, Type::I16) | (Type::I32, Type::I32)
        | (Type::I64, Type::I64) | (Type::F32, Type::F32) | (Type::F64, Type::F64) | (Type::Unit, Type::Unit) => true,
        (Type::Pointer(x), Type::Pointer(y)) => x == y,
        (Type::Func(f), Type::Func(g)) => same_ids(&f.params, &g.params) && f.ret == g.ret && f.var_args == g.var_args,
        (Type::Struct(s), Type::Struct(t)) => {
            if !(s.name == t.name) || s.fields.len() != t.fields.len() {
                return false;
            }
            let mut i: usize = 0;
            while i < s.fields.len()
                invariant
                    *a == Type::Struct(*s),
                    *b == Type::Struct(*t),
                    s.name@ == t.name@,
                    i <= s.fields@.len(),
                    s.fields@.len() == t.fields@.len(),
                    forall|j: int| 0 <= j < i ==> #[trigger] same_field(s.fields@[j], t.fields@[j]),
                decreases s.fields@.len() - i,
            {
                let same_name = s.fields[i].0 == t.fields[i].0;
                if !same_name || s.fields[i].1 != t.fields[i].1 {
                    assert(!same_field(s.fields@[i as int], t.fields@[i as int]));
                    return false;
                }
                assert(same_field(s.fields@[i as int], t.fields@[i as int]));
                i = i + 1;
            }
            true
        },
        (Type::Enum(e), Type::Enum(f)) => {
            if !(e.name == f.name) || e.variants.len() != f.variants.len() {
                return false;
            }
            let mut k: usize = 0;
            while k < e.variants.len()
                invariant
                    *a == Type::Enum(*e),
                    *b == Type::Enum(*f),
                    e.name@ == f.name@,
                    k <= e.variants@.len(),
                    e.variants@.len() == f.variants@.len(),
                    forall|j: int| 0 <= j < k ==> #[trigger] same_variant(e.variants@[j], f.variants@[j]),
                decreases e.variants@.len() - k,
            {
                let same_name = e.variants[k].name == f.variants[k].name;
                if !same_name || !same_ids(&e.variants[k].args, &f.variants[k].args) {
                    assert(!same_variant(e.variants@[k as int], f.variants@[k as int]));
                    return false;
                }
                assert(same_variant(e.variants@[k as int], f.variants@[k as int]));
                k = k + 1;
            }
            true
        },
        (Type::Array(x, n), Type::Array(y, m)) => x == y && n == m,
        (Type::Tuple(xs), Type::Tuple(ys)) => same_ids(xs, ys),
        _ => false,
    }
}

/// A type table that holds each type once.
#[derive(Debug)]
pub struct TypeIntern {
    pub types: Vec<Type>,
}

impl TypeIntern {
    /// No two entries of the table are the same type.
    pub open spec fn wf(self) -> bool {
        forall|i: int, j: int| 0 <= i < j < self.types@.len() ==> !same_type(#[trigger] self.types@[i], #[trigger] self.types@[j])
    }

    pub fn new() -> (r: Self)
        ensures
            r.wf(),
            r.types@.len() == 0,
    {
        TypeIntern { types: Vec::new() }
    }

    /// The id of `ty`: the entry that is the same type, or a new last entry.
    pub fn intern(&mut self, ty: Type) -> (r: TypeId)
        requires
            old(self).wf(),
        ensures
            final(self).wf(),
            r < final(self).types@.len(),
            same_type(final(self).types@[r as int], ty),
            (exists|i: int| 0 <= i < old(self).types@.len() && same_type(old(self).types@[i], ty)) ==> final(self).types@ == old(self).types@,
            !(exists|i: int| 0 <= i < old(self).types@.len() && same_type(old(self).types@[i], ty)) ==> final(self).types@ == old(self).types@.push(ty) && r == old(self).types@.len(),
    {
        let mut i: usize = 0;
        while i < self.types.len()
            invariant
                i <= self.types@.len(),
                *self == *old(self),
                old(self).wf(),
                forall|j: int| 0 <= j < i ==> !same_type(#[trigger] self.types@[j], ty),
            decreases self.types@.len() - i,
        {
            if type_eq(&ty, &self.types[i]) {
                proof { lemma_same_type_symmetric(ty, self.types@[i as int]); }
                return i;
            }
            proof { lemma_same_type_symmetric(ty, self.types@[i as int]); }
            i = i + 1;
        }
        let n = self.types.len();
        proof { lemma_same_type_reflexive(ty); }
        self.types.push(ty);
        proof {
            assert forall|a: int, b: int| 0 <= a < b < self.types@.len() implies !same_type(#[trigger] self.types@[a], #[trigger] self.types@[b]) by {
                if b == n as int {
                    assert(self.types@[a] == old(self).types@[a]);
                }
            }
        }
        n
    }

    /// Type `i` of the table.
    pub fn get(&self, i: TypeId) -> (r: &Type)
        requires
            i < self.types@.len(),
        ensures
            *r == self.types@[i as int],
    {
        &self.types[i]
    }
}

pub proof fn lemma_same_type_reflexive(a: Type)
    ensures
        same_type(a, a),
{
}

pub proof fn lemma_same_type_symmetric(a: Type, b: Type)
    ensures
        same_type(a, b) == same_type(b, a),
{
    match (a, b) {
        (Type::Struct(s), Type::Struct(t)) => {
            if same_type(a, b) {
                assert forall|i: int| 0 <= i < t.fields@.len() implies #[trigger] same_field(t.fields@[i], s.fields@[i]) by {
                    assert(same_field(s.fields@[i], t.fields@[i]));
                }
            }
            if same_type(b, a) {
                assert forall|i: int| 0 <= i < s.fields@.len() implies #[trigger] same_field(s.fields@[i], t.fields@[i]) by {
                    assert(same_field(t.fields@[i], s.fields@[i]));
                }
            }
        },
        (Type::Enum(e), Type::Enum(f)) => {
            if same_type(a, b) {
                assert forall|k: int| 0 <= k < f.variants@.len() implies #[trigger] same_variant(f.variants@[k], e.variants@[k]) by {
                    assert(same_variant(e.variants@[k], f.variants@[k]));
                }
            }
            if same_type(b, a) {
                assert forall|k: int| 0 <= k < e.variants@.len() implies #[trigger] same_variant(e.variants@[k], f.variants@[k]) by {
                    assert(same_variant(f.variants@[k], e.variants@[k]));
                }
            }
        },
        _ => {},
    }
}

/// What a name stands for.
#[derive(PartialEq, Eq, Structural, Clone, Copy, Debug)]
pub enum Def {
    Func(FuncId),
    Type(TypeId),
    Param(ParamId),
    Local(LocalId),
}

/// Names and what they stand for, in the order they were defined; a scope
/// is the length of the table when it was entered.
#[derive(Debug)]
pub struct NameTable {
    pub names: Vec<(String, Def)>,
}

impl NameTable {
    pub fn new() -> (r: Self)
        ensures
            r.names@.len() == 0,
    {
        NameTable { names: Vec::new() }
    }

    /// Defines `name` as `def`.
    pub fn def(&mut self, name: String, def: Def)
        ensures
            final(self).names@ == old(self).names@.push((name, def)),
    {
        self.names.push((name, def));
    }

    /// What `name` stands for: the first definition of it in the table.
    pub fn get(&self, name: &String) -> (r: Option<Def>)
        ensures
            r is None <==> forall|i: int| 0 <= i < self.names@.len() ==> #[trigger] self.names@[i].0@ != name@,
            r matches Some(d) ==> exists|i: int|
                0 <= i < self.names@.len() && #[trigger] self.names@[i].0@ == name@ && self.names@[i].1 == d
                    && forall|j: int| 0 <= j < i ==> #[trigger] self.names@[j].0@ != name@,
    {
        let mut i: usize = 0;
        while i < self.names.len()
            invariant
                i <= self.names@.len(),
                forall|j: int| 0 <= j < i ==> #[trigger] self.names@[j].0@ != name@,
            decreases self.names@.len() - i,
        {
            if self.names[i].0 == *name {
                return Some(self.names[i].1);
            }
            i = i + 1;
        }
        None
    }

    /// Enters a scope; the result is handed back to `exit_scope`.
    pub fn enter_scope(&self) -> (r: usize)
        ensures
            r == self.names@.len(),
    {
        self.names.len()
    }

    /// Leaves a scope: the definitions made since it was entered go.
    pub fn exit_scope(&mut self, scope: usize)
        ensures
            final(self).names@ == old(self).names@.take(if scope < old(self).names@.len() { scope as int } else { old(self).names@.len() as int }),
    {
        while scope < self.names.len()
            invariant
                old(self).names@.len() >= self.names@.len(),
                self.names@ == old(self).names@.take(self.names@.len() as int),
                self.names@.len() >= scope || self.names@.len() == old(self).names@.len(),
            decreases self.names@.len(),
        {
            let _ = self.names.pop();
        }
        assert(self.names@ =~= old(self).names@.take(if scope < old(self).names@.len() { scope as int } else { old(self).names@.len() as int }));
    }
}

} // verus!
