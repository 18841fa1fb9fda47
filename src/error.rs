//! Why lowering failed.

use vstd::prelude::*;

use crate::ast::{BinaryOp, ExprKind, PatternKind, StatementKind, TypeKind};

verus! {

/// The shape of a constraint that is not an equality or inequality.
#[derive(Clone, Copy, Debug, PartialEq, Eq)]
pub enum ConstraintShape {
    /// The constraint is a bare name.
    Identifier,
    /// The constraint is an expression of another kind.
    Expression(ExprKind),
    /// The constraint is an infix operation with another operator.
    Operator(BinaryOp),
}

/// A failure to lower one function.
#[derive(Clone, Debug, PartialEq, Eq)]
pub enum LowerError {
    /// A name is used that no parameter of the function binds.
    UnboundIdentifier(String),
    /// The function allocates no register, so it has no result.
    EmptyRegistry,
    UnsupportedType(TypeKind),
    UnsupportedPattern(PatternKind),
    UnsupportedExpression(ExprKind),
    UnsupportedStatement(StatementKind),
    UnsupportedConstraint(ConstraintShape),
}

/// A failure to lower a program: the function where it happened, and why.
#[derive(Clone, Debug, PartialEq, Eq)]
pub struct ProgramError {
    pub function: String,
    pub error: LowerError,
}

} // verus!
