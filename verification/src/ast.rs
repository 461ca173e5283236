//! The typed syntax tree that the pipeline consumes. The tree is produced
//! by an external parsing stage and is assumed structurally well-formed;
//! nothing here re-checks the source text.
//!
//! A float literal carries its decimal spelling as text: the pipeline only
//! ever classifies it (its type is `Float`) or prints it back, so the
//! spelling is the whole of what the core reads from it.

use vstd::prelude::*;

verus! {

/// The closed set of value types of the language. Equality is structural;
/// the checker never coerces, it reports mismatches.
#[derive(Debug, Clone, Copy, PartialEq, Eq, Structural)]
pub enum Type {
    Int,
    Float,
    Char,
    Void,
}

/// Unary operators.
#[derive(Debug, Clone, Copy, PartialEq, Eq, Structural)]
pub enum UnaryOp {
    Neg,
    Not,
}

/// Binary arithmetic operators.
#[derive(Debug, Clone, Copy, PartialEq, Eq, Structural)]
pub enum BinaryOp {
    Add,
    Sub,
    Mul,
    Div,
}

/// Expressions.
#[derive(Debug)]
pub enum Expr {
    Number(i64),
    FloatNumber(String),
    CharLiteral(char),
    StringLiteral(String),
    Ident(String),
    Unary { op: UnaryOp, expr: Box<Expr> },
    Binary { op: BinaryOp, left: Box<Expr>, right: Box<Expr> },
    Assign { name: String, value: Box<Expr> },
    Call { name: String, args: Vec<Expr> },
}

/// Statements: the restricted language has no control flow.
#[derive(Debug)]
pub enum Stmt {
    VarDecl { ty: Type, name: String, value: Expr },
    ExprStmt(Expr),
    Return(Expr),
}

/// A function body: an ordered list of statements.
#[derive(Debug)]
pub struct Block {
    pub stmts: Vec<Stmt>,
}

/// A function: name, return type, ordered parameters (type and name), body.
#[derive(Debug)]
pub struct Function {
    pub name: String,
    pub return_type: Type,
    pub params: Vec<(Type, String)>,
    pub body: Block,
}

/// A whole program: an ordered list of functions.
#[derive(Debug)]
pub struct Program {
    pub functions: Vec<Function>,
}

} // verus!
