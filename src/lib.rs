//! Type-directed lowering of a fully typed, C-like intermediate representation
//! into a block-structured backend program.
//!
//! - `ir`: the input representation and the classification of its types.
//! - `names`: a type table that holds each type once, and scoped names.
//! - `abi`: the calling convention derived from that classification.
//! - `layout`: how each type is represented, and the layout of enums.
//! - `ops`: which backend operation implements an operator or a cast.
//! - `literal`: string literals and their escapes.
//! - `lir`: the backend program that lowering produces.
//! - `lower`: places, expressions, statements and control flow of a body.
//! - `module`: the lowering of a whole module.

pub mod ir;
pub mod names;
pub mod abi;
pub mod layout;
pub mod ops;
pub mod literal;
pub mod lir;
pub mod emission;
pub mod lower;
pub mod module;
