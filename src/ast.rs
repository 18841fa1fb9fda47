//! The resolved function-level syntax tree that the lowering consumes.
//!
//! Only the shapes that the lowering reads are spelled out; every other
//! construct is kept as its kind, so that a failure can name it.

use vstd::prelude::*;

verus! {

/// Whether a value is visible to the verifier of the proof.
#[derive(Clone, Copy, Debug, PartialEq, Eq)]
pub enum Visibility {
    Public,
    Private,
}

#[derive(Clone, Copy, Debug, PartialEq, Eq)]
pub enum Signedness {
    Signed,
    Unsigned,
}

/// Type shapes that have no target type (yet).
#[derive(Clone, Copy, Debug, PartialEq, Eq)]
pub enum TypeKind {
    Array,
    Bool,
    Unit,
    Named,
    Tuple,
    Unspecified,
    Error,
}

/// A type annotation of a parameter or of a function's result.
#[derive(Clone, Debug, PartialEq, Eq)]
pub enum TypeAnnotation {
    FieldElement,
    /// An integer of the given signedness and bit width.
    Integer(Signedness, u32),
    Other(TypeKind),
}

/// Binding patterns other than a plain name.
#[derive(Clone, Copy, Debug, PartialEq, Eq)]
pub enum PatternKind {
    Mutable,
    Tuple,
    Struct,
}

/// The binding pattern of a parameter.
#[derive(Clone, Debug, PartialEq, Eq)]
pub enum Pattern {
    Identifier(String),
    Other(PatternKind),
}

/// Infix operators.
#[derive(Clone, Copy, Debug, PartialEq, Eq)]
pub enum BinaryOp {
    Add,
    Subtract,
    Multiply,
    Divide,
    Equal,
    NotEqual,
    Less,
    LessEqual,
    Greater,
    GreaterEqual,
    And,
    Or,
    Xor,
    ShiftRight,
    ShiftLeft,
    Modulo,
}

/// Expression kinds other than a name or an infix operation.
#[derive(Clone, Copy, Debug, PartialEq, Eq)]
pub enum ExprKind {
    /// A bare identifier node, as opposed to a path naming a binding.
    Ident,
    Literal,
    Block,
    Prefix,
    Index,
    Call,
    MethodCall,
    Constructor,
    MemberAccess,
    Cast,
    For,
    If,
    Tuple,
    Error,
}

#[derive(Debug, PartialEq, Eq)]
pub enum Expr {
    /// A path that names a single local binding.
    Ident(String),
    Infix(Box<Expr>, BinaryOp, Box<Expr>),
    Other(ExprKind),
}

/// Statement kinds other than a constraint or an expression.
#[derive(Clone, Copy, Debug, PartialEq, Eq)]
pub enum StatementKind {
    Let,
    Assign,
    Semi,
    Error,
}

#[derive(Debug, PartialEq, Eq)]
pub enum Statement {
    /// `constrain <expr>`: an assertion of equality or inequality.
    Constrain(Expr),
    /// An expression in statement position, without a trailing `;`.
    Expression(Expr),
    Other(StatementKind),
}

#[derive(Clone, Debug, PartialEq, Eq)]
pub struct Param {
    pub pattern: Pattern,
    pub typ: TypeAnnotation,
    pub visibility: Visibility,
}

#[derive(Debug, PartialEq, Eq)]
pub struct Function {
    pub name: String,
    pub parameters: Vec<Param>,
    pub body: Vec<Statement>,
    pub return_type: TypeAnnotation,
    pub return_visibility: Visibility,
}

/// A parsed module: its functions in declaration order.
#[derive(Debug, PartialEq, Eq)]
pub struct Module {
    pub functions: Vec<Function>,
}

} // verus!
