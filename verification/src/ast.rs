//! The program tree that the code generator consumes.
//!
//! The tree is produced by a parsing collaborator and is treated as immutable,
//! syntactically valid input.  Every node carries a source span for
//! diagnostics, and every expression is annotated with a type reference
//! computed by the parser.

use vstd::prelude::*;

verus! {

/// A source position range attached to every syntactic node, for diagnostics.
#[derive(Clone, Copy, PartialEq, Eq, Structural, Debug)]
pub struct InputSpan {
    pub start: u32,
    pub end: u32,
}

impl InputSpan {
    /// A span used where no meaningful source position is available.
    pub fn invalid() -> (r: InputSpan)
        ensures
            r == (InputSpan { start: 0, end: 0 }),
    {
        InputSpan { start: 0, end: 0 }
    }
}

/// The primitive types known to the language.
#[derive(Clone, Copy, PartialEq, Eq, Structural, Debug)]
pub enum PrimitiveKind {
    IntType,
    BoolType,
    UnitType,
    BottomKind,
}

/// A syntactic reference to a type: either a primitive known to the global
/// type table, or a bare name to be resolved as an identifier.
#[derive(Debug)]
pub enum TypeRef {
    Primitive(PrimitiveKind),
    Named(String),
}

impl TypeRef {
    /// An owned copy of this type reference.
    pub fn dup(&self) -> (r: TypeRef)
        ensures
            r == *self,
    {
        match self {
            TypeRef::Primitive(k) => TypeRef::Primitive(*k),
            TypeRef::Named(s) => TypeRef::Named(s.clone()),
        }
    }
}

/// A whole program: an ordered sequence of top-level items.
#[derive(Debug)]
pub struct Program {
    pub items: Vec<Item>,
}

/// One top-level item.
#[derive(Debug)]
pub enum Item {
    FunctionItem(FunctionDeclaration),
    StructItem(StructDeclaration),
    LetItem(LetStatement),
}

/// A top-level function declaration.
#[derive(Debug)]
pub struct FunctionDeclaration {
    pub name: String,
    /// Ordered `(name, type)` parameter list, in declaration order.
    pub params: Vec<(String, TypeRef)>,
    pub rtype: TypeRef,
    pub body: Block,
    pub span: InputSpan,
}

/// A struct declaration (recognized but rejected as unsupported).
#[derive(Debug)]
pub struct StructDeclaration {
    pub name: String,
    pub span: InputSpan,
}

/// A `let` binding, global or local.
#[derive(Debug)]
pub struct LetStatement {
    pub name: String,
    pub var_type: TypeRef,
    pub assignment: Option<Assignment>,
    pub span: InputSpan,
}

/// An assignment of an expression to a named target.
#[derive(Debug)]
pub struct Assignment {
    pub target: String,
    pub expression: Expression,
    pub span: InputSpan,
}

/// An ordered statement sequence with the parser-computed result type.
#[derive(Debug)]
pub struct Block {
    pub statements: Vec<Expression>,
    /// The result type of the block, as computed by the parser.
    pub rtype: TypeRef,
    pub span: InputSpan,
}

/// An expression node: the expression form, its parser-computed result type,
/// and its source span.
#[derive(Debug)]
pub struct Expression {
    pub expr: Box<Expr>,
    pub rtype: TypeRef,
    pub span: InputSpan,
}

/// The expression forms of the language.
#[derive(Debug)]
pub enum Expr {
    IfExpr(IfStatement),
    LoopExpr(LoopStatement),
    CallExpr(FunctionCall),
    Break,
    Return(Expression),
    LetExpr(LetStatement),
    AssignExpr(Assignment),
    VariableExpr(String),
    LitNumExpr(i16),
    RawOpExpr(String),
    EmptyExpr,
}

/// A conditional with an optional `else` block.
#[derive(Debug)]
pub struct IfStatement {
    pub condition: Expression,
    pub body: Block,
    pub else_block: Option<Block>,
}

/// An unconditional loop, exited by `break`.
#[derive(Debug)]
pub struct LoopStatement {
    pub body: Block,
}

/// A call of a named function with ordered arguments.
#[derive(Debug)]
pub struct FunctionCall {
    pub name: String,
    pub args: Vec<Expression>,
    pub span: InputSpan,
}

} // verus!
