//! Lowering of a resolved Noir function AST into Aleo instructions.
//!
//! The library takes a module of functions (see [`ast`]) and produces the
//! text of an Aleo program. Every emitted line, every register number and
//! every failure is described by the spec functions of [`lower`], and the
//! executable lowering is proved to produce exactly that.

pub mod text;

pub mod ast;
pub mod error;
pub mod registry;
pub mod lower;
pub mod laws;
