//! The typed intermediate representation that the lowering consumes.

use vstd::prelude::*;

verus! {

/// Index into the module's type table.
pub type TypeId = usize;

/// Index into the module's function declaration table.
pub type FuncId = usize;

/// Index of a declared parameter of the function being lowered.
pub type ParamId = usize;

/// Index of a local slot of the function being lowered.
pub type LocalId = usize;

/// Index into the module's constant table.
pub type ConstId = usize;

/// A type of the source language. Types refer to one another by id only.
#[derive(Clone, Debug, PartialEq, Eq)]
pub enum Type {
    Bool,
    I8,
    I16,
    I32,
    I64,
    F32,
    F64,
    Pointer(TypeId),
    Func(FuncType),
    Struct(StructType),
    Enum(EnumType),
    Array(TypeId, u32),
    Tuple(Vec<TypeId>),
    Unit,
}

/// Parameter types, return type and whether further arguments may follow.
#[derive(Clone, Debug, PartialEq, Eq)]
pub struct FuncType {
    pub params: Vec<TypeId>,
    pub ret: TypeId,
    pub var_args: bool,
}

/// A named record with ordered, named fields.
#[derive(Clone, Debug, PartialEq, Eq)]
pub struct StructType {
    pub name: String,
    pub fields: Vec<(String, TypeId)>,
}

/// A tagged union: ordered variants, each with ordered arguments.
#[derive(Clone, Debug, PartialEq, Eq)]
pub struct EnumType {
    pub name: String,
    pub variants: Vec<Variant>,
}

#[derive(Clone, Debug, PartialEq, Eq)]
pub struct Variant {
    pub name: String,
    pub args: Vec<TypeId>,
}

/// How values of a type are held while lowering.
#[derive(PartialEq, Eq, Structural, Clone, Copy, Debug)]
pub enum TypeKind {
    /// An immediate value: numbers, pointers, function values.
    Scalar,
    /// Always in memory and handled by address: structs, tuples, arrays, enums.
    Aggregate,
    /// No value at all.
    Unit,
}

/// Selects how operators on a scalar are lowered.
#[derive(PartialEq, Eq, Structural, Clone, Copy, Debug)]
pub enum ScalarKind {
    Int,
    Float,
    Pointer,
}

pub open spec fn kind_of(ty: Type) -> TypeKind {
    match ty {
        Type::Struct(_) | Type::Enum(_) | Type::Array(_, _) | Type::Tuple(_) => TypeKind::Aggregate,
        Type::Unit => TypeKind::Unit,
        _ => TypeKind::Scalar,
    }
}

pub open spec fn scalar_kind_of(ty: Type) -> Option<ScalarKind> {
    match ty {
        Type::Bool | Type::I8 | Type::I16 | Type::I32 | Type::I64 => Some(ScalarKind::Int),
        Type::F32 | Type::F64 => Some(ScalarKind::Float),
        Type::Pointer(_) | Type::Func(_) => Some(ScalarKind::Pointer),
        _ => None,
    }
}

impl Type {
    /// The classification of this type.
    pub fn kind(&self) -> (r: TypeKind)
        ensures
            r == kind_of(*self),
    {
        match self {
            Type::Struct(_) | Type::Enum(_) | Type::Array(_, _) | Type::Tuple(_) => TypeKind::Aggregate,
            Type::Unit => TypeKind::Unit,
            _ => TypeKind::Scalar,
        }
    }

    /// The operator family of a scalar type; `None` for aggregates and unit.
    pub fn scalar_kind(&self) -> (r: Option<ScalarKind>)
        ensures
            r == scalar_kind_of(*self),
    {
        match self {
            Type::Bool | Type::I8 | Type::I16 | Type::I32 | Type::I64 => Some(ScalarKind::Int),
            Type::F32 | Type::F64 => Some(ScalarKind::Float),
            Type::Pointer(_) | Type::Func(_) => Some(ScalarKind::Pointer),
            _ => None,
        }
    }
}

/// Binary operators of the source language.
#[derive(PartialEq, Eq, Structural, Clone, Copy, Debug)]
pub enum Binop {
    Add,
    Sub,
    Mul,
    Div,
    And,
    Shl,
    Shr,
    Cmp(Predicate),
}

/// The comparisons shared by every scalar kind.
#[derive(PartialEq, Eq, Structural, Clone, Copy, Debug)]
pub enum Predicate {
    Eq,
    Ne,
    Ge,
    Le,
    Gt,
    Lt,
}

#[derive(PartialEq, Eq, Structural, Clone, Copy, Debug)]
pub enum Unop {
    Deref,
    AddressOf,
}

/// An expression together with its resolved type.
#[derive(Debug, PartialEq, Eq)]
pub struct Expr {
    pub ty: TypeId,
    pub kind: ExprKind,
}

#[derive(Debug, PartialEq, Eq)]
pub enum ExprKind {
    Null,
    Unit,
    /// Decimal digits, as written.
    Integer(String),
    /// A floating-point literal, as written.
    Float(String),
    Bool(bool),
    Char(u8),
    /// A quoted string literal with escapes, as written.
    String(Vec<char>),
    Local(LocalId),
    Param(ParamId),
    Func(FuncId),
    Const(ConstId),
    Type(TypeId),
    Unary(Unop, Box<Expr>),
    Binary(Binop, Box<Expr>, Box<Expr>),
    Index(Box<Expr>, Box<Expr>),
    /// Field of a tuple or struct, or of one that a pointer points to.
    Field(Box<Expr>, u32),
    /// Argument of the given variant of an enum place.
    EnumField(Box<Expr>, u32, u32),
    Tuple(Vec<Expr>),
    /// Field index and value, for each field that is written.
    Struct(Vec<(u32, Expr)>),
    Array(Vec<Expr>),
    /// Variant ordinal and its arguments.
    EnumCall(u32, Vec<Expr>),
    /// The tag value of a variant, as an 8-bit integer.
    EnumVariant(u32),
    /// The tag stored in an enum place.
    EnumTag(Box<Expr>),
    Call(Box<Expr>, Vec<Expr>),
    Cast(Box<Expr>, TypeId),
    Sizeof(TypeId),
}

#[derive(Debug, PartialEq, Eq)]
pub struct Block {
    pub stmts: Vec<Stmt>,
}

#[derive(Debug, PartialEq, Eq)]
pub enum Stmt {
    Assign(Expr, Expr),
    Return(Expr),
    Expr(Expr),
    If(Expr, Block),
    While(Expr, Block),
    /// Initialiser, condition, post-step and body.
    For(Vec<Stmt>, Expr, Vec<Stmt>, Block),
    Break,
    Continue,
}

/// A global constant.
#[derive(Debug, PartialEq, Eq)]
pub struct Const {
    pub expr: Expr,
}

#[derive(Clone, Debug, PartialEq, Eq)]
pub struct FuncDecl {
    pub name: String,
    pub ty: FuncType,
}

/// The body of the declared function `id`.
#[derive(Debug, PartialEq, Eq)]
pub struct FuncBody {
    pub id: FuncId,
    /// The type of each local slot; a slot's index is its position.
    pub locals: Vec<TypeId>,
    pub body: Block,
}

/// A fully resolved module.
#[derive(Debug, PartialEq, Eq)]
pub struct Module {
    pub types: Vec<Type>,
    pub consts: Vec<Const>,
    pub func_decls: Vec<FuncDecl>,
    pub func_bodys: Vec<FuncBody>,
}

} // verus!
