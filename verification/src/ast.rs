//! The syntax tree consumed by the generator.
//!
//! Each syntactic category is a closed tagged union with one case per shape
//! the generator supports, plus a catch-all unsupported case carrying the
//! name of the construct that the upstream parser saw. The unsupported cases
//! make rejection a total, checkable function of the tree rather than an
//! accident of traversal.

use vstd::prelude::*;

verus! {

/// A binary operator of the source language, emitted with its textual symbol.
#[derive(Clone, Copy, Debug, PartialEq, Eq, Structural)]
pub enum BinOp {
    Add,
    Sub,
    Mul,
    Div,
    Rem,
    And,
    Or,
    BitXor,
    BitAnd,
    BitOr,
    Shl,
    Shr,
    Eq,
    Lt,
    Le,
    Ne,
    Ge,
    Gt,
}

/// A literal expression. Only strings and unsigned integers are supported.
#[derive(Debug)]
pub enum Lit {
    Str(String),
    Int(u128),
    /// Any other literal kind; the payload names it for diagnostics.
    Unsupported(String),
}

/// A qualified name. The generator supports exactly one segment.
#[derive(Debug)]
pub struct Path {
    pub segments: Vec<String>,
}

/// The left-hand shape of a binding; must reduce to a single identifier.
#[derive(Debug)]
pub enum Pat {
    Ident(String),
    Path(Path),
    /// Any structured or destructuring pattern; the payload names it.
    Unsupported(String),
}

/// An expression of the source language.
#[derive(Debug)]
pub enum Expr {
    Lit(Lit),
    Path(Path),
    Call(Box<Expr>, Vec<Expr>),
    Binary(BinOp, Box<Expr>, Box<Expr>),
    Assign(Box<Expr>, Box<Expr>),
    AssignOp(BinOp, Box<Expr>, Box<Expr>),
    Ret(Option<Box<Expr>>),
    Loop(Block),
    If(Box<Expr>, Block),
    Break(Option<Box<Expr>>),
    /// Any other expression kind; the payload names it.
    Unsupported(String),
}

/// An indentation-scoped, ordered sequence of statements.
#[derive(Debug)]
pub struct Block {
    pub stmts: Vec<Stmt>,
}

/// A statement of the source language.
#[derive(Debug)]
pub enum Stmt {
    Item(Box<Item>),
    Expr(Box<Expr>),
    /// An expression statement with a trailing separator; emitted exactly
    /// like a bare expression statement.
    Semi(Box<Expr>),
    Local(Pat, Option<Box<Expr>>),
    /// Any other statement kind; the payload names it.
    Unsupported(String),
}

/// A top-level declaration. Only function definitions are supported: a name,
/// the parameter patterns, and a body block.
#[derive(Debug)]
pub enum Item {
    Fn(String, Vec<Pat>, Block),
    /// Any other item kind; the payload names it.
    Unsupported(String),
}

/// The root of translation: an ordered sequence of items.
#[derive(Debug)]
pub struct Module {
    pub items: Vec<Item>,
}

/// The reason a translation run was rejected: the syntactic category of the
/// first construct, in traversal order, that the generator does not model.
#[derive(Clone, Copy, Debug, PartialEq, Eq, Structural)]
pub enum Error {
    UnsupportedItem,
    UnsupportedStmt,
    UnsupportedExpr,
    UnsupportedLit,
    UnsupportedPat,
    UnsupportedPath,
}

} // verus!
