//! Lowering of a whole module: types, declarations, constants and bodies.

use vstd::prelude::*;
use crate::abi::{abi_return, abi_signature, ids_valid, link_name, link_name_of, signature_params};
use crate::ir::{Const, ExprKind, FuncId, Module, TypeId};
use crate::layout::{ids_below, lower_type, represents, table_valid, types_valid, types_well_founded, well_founded, LowType};
use crate::lir::{LDecl, LFunction, LModule};
use crate::lower::{body_lowered, function_ok, lower_function, LowerError};

verus! {

/// Constant `i` of the module is an integer literal.
pub open spec fn const_is_literal(m: &Module, i: int) -> bool {
    m.consts@[i].expr.kind is Integer
}

/// Every declaration, constant and body of the module can be lowered.
pub open spec fn module_ok(m: Module) -> bool {
    &&& table_valid(m.types@)
    &&& well_founded(m.types@)
    &&& forall|i: int| 0 <= i < m.func_decls@.len() ==> ids_valid(m.types@, (#[trigger] m.func_decls@[i]).ty.params@)
        && m.func_decls@[i].ty.ret < m.types@.len()
    &&& forall|i: int| 0 <= i < m.consts@.len() ==> #[trigger] const_is_literal(&m, i)
    &&& forall|i: int| 0 <= i < m.func_bodys@.len() ==> function_ok(m, #[trigger] m.func_bodys@[i])
}

/// `out` is the type and the digits of the integer literal `c`.
pub open spec fn const_lowered(c: Const, out: (TypeId, String)) -> bool {
    c.expr.kind matches ExprKind::Integer(s) && out.0 == c.expr.ty && out.1@ == s@
}

/// Lowers a module: the representation of every type, the symbol and
/// machine signature of every declared function (`macos` selects that
/// system's symbol names), every constant and every body, each in
/// declaration order.
pub fn build(m: &Module, macos: bool) -> (r: Result<LModule, LowerError>)
    ensures
        r is Ok <==> module_ok(*m),
        r matches Ok(lm) ==> {
            &&& lm.types@.len() == m.types@.len()
            &&& forall|i: int| 0 <= i < m.types@.len() ==> represents(m.types@, m.types@[i], #[trigger] lm.types@[i])
            &&& lm.decls@.len() == m.func_decls@.len()
            &&& forall|i: int| 0 <= i < m.func_decls@.len() ==> {
                let d = #[trigger] m.func_decls@[i];
                &&& lm.decls@[i].sig.params@ == signature_params(m.types@, d.ty.params@, d.ty.ret)
                &&& lm.decls@[i].sig.ret == abi_return(m.types@, d.ty.ret)
                &&& lm.decls@[i].sig.var_args == d.ty.var_args
                &&& lm.decls@[i].link_name@ == link_name_of(d.name@, macos)
            }
            &&& lm.consts@.len() == m.consts@.len()
            &&& forall|i: int| 0 <= i < m.consts@.len() ==> const_lowered(#[trigger] m.consts@[i], lm.consts@[i])
            &&& lm.bodies@.len() == m.func_bodys@.len()
            &&& forall|i: int| 0 <= i < m.func_bodys@.len() ==> (#[trigger] lm.bodies@[i]).0 == m.func_bodys@[i].id
                && body_lowered(*m, m.func_bodys@[i], lm.bodies@[i].1)
        },
{
    if !types_valid(&m.types) {
        return Err(LowerError::BadReference);
    }
    if !types_well_founded(&m.types) {
        return Err(LowerError::CyclicType);
    }
    let mut types: Vec<LowType> = Vec::new();
    let mut i: usize = 0;
    while i < m.types.len()
        invariant
            table_valid(m.types@),
            i <= m.types@.len(),
            types@.len() == i,
            forall|j: int| 0 <= j < i ==> represents(m.types@, m.types@[j], #[trigger] types@[j]),
        decreases m.types@.len() - i,
    {
        types.push(lower_type(&m.types, i));
        i = i + 1;
    }
    let mut decls: Vec<LDecl> = Vec::new();
    let mut i: usize = 0;
    while i < m.func_decls.len()
        invariant
            i <= m.func_decls@.len(),
            decls@.len() == i,
            table_valid(m.types@),
            forall|j: int| 0 <= j < i ==> ids_valid(m.types@, (#[trigger] m.func_decls@[j]).ty.params@)
                && m.func_decls@[j].ty.ret < m.types@.len(),
            forall|j: int| 0 <= j < i ==> {
                let d = #[trigger] m.func_decls@[j];
                &&& decls@[j].sig.params@ == signature_params(m.types@, d.ty.params@, d.ty.ret)
                &&& decls@[j].sig.ret == abi_return(m.types@, d.ty.ret)
                &&& decls@[j].sig.var_args == d.ty.var_args
                &&& decls@[j].link_name@ == link_name_of(d.name@, macos)
            },
        decreases m.func_decls@.len() - i,
    {
        let d = &m.func_decls[i];
        if !ids_below(&d.ty.params, m.types.len()) || d.ty.ret >= m.types.len() {
            return Err(LowerError::BadReference);
        }
        let sig = abi_signature(&m.types, &d.ty);
        let name = link_name(&d.name, macos);
        decls.push(LDecl { link_name: name, sig });
        i = i + 1;
    }
    let mut consts: Vec<(usize, String)> = Vec::new();
    let mut i: usize = 0;
    while i < m.consts.len()
        invariant
            i <= m.consts@.len(),
            consts@.len() == i,
            forall|j: int| 0 <= j < i ==> const_lowered(#[trigger] m.consts@[j], consts@[j]),
            table_valid(m.types@),
            forall|j: int| 0 <= j < m.func_decls@.len() ==> ids_valid(m.types@, (#[trigger] m.func_decls@[j]).ty.params@)
                && m.func_decls@[j].ty.ret < m.types@.len(),
        decreases m.consts@.len() - i,
    {
        let c = &m.consts[i];
        match &c.expr.kind {
            ExprKind::Integer(s) => consts.push((c.expr.ty, s.clone())),
            _ => {
                assert(!const_is_literal(m, i as int));
                return Err(LowerError::ConstNotLiteral);
            },
        }
        i = i + 1;
    }
    assert forall|j: int| 0 <= j < m.consts@.len() implies #[trigger] const_is_literal(m, j) by {
        assert(m.consts@[j].expr.kind is Integer);
    }
    let mut bodies: Vec<(FuncId, LFunction)> = Vec::new();
    let mut i: usize = 0;
    while i < m.func_bodys.len()
        invariant
            i <= m.func_bodys@.len(),
            bodies@.len() == i,
            table_valid(m.types@),
            well_founded(m.types@),
            forall|j: int| 0 <= j < m.func_decls@.len() ==> ids_valid(m.types@, (#[trigger] m.func_decls@[j]).ty.params@)
                && m.func_decls@[j].ty.ret < m.types@.len(),
            forall|j: int| 0 <= j < m.consts@.len() ==> #[trigger] const_is_literal(m, j),
            forall|j: int| 0 <= j < i ==> function_ok(*m, #[trigger] m.func_bodys@[j]),
            forall|j: int| 0 <= j < i ==> (#[trigger] bodies@[j]).0 == m.func_bodys@[j].id
                && body_lowered(*m, m.func_bodys@[j], bodies@[j].1),
        decreases m.func_bodys@.len() - i,
    {
        let f = lower_function(m, &m.func_bodys[i])?;
        bodies.push((m.func_bodys[i].id, f));
        i = i + 1;
    }
    Ok(LModule { types, decls, consts, bodies })
}

} // verus!
