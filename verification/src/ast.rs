//! The abstract syntax tree: the result data model of parsing.  Nodes are
//! built bottom-up during one parse and never mutated afterwards; every
//! sub-expression is owned exclusively by its parent.

use vstd::prelude::*;
use crate::lexer::Symbol;

verus! {

/// An ordered sequence of statement-expressions, in textual order.
#[derive(Debug)]
pub struct Block {
    pub statements: Vec<Expression>,
}

/// One expression of the language.
#[derive(Debug)]
pub enum Expression {
    Assignment(Assignment),
    If(If),
    Call(Call),
    Infix(Infix),
    Identifier(String),
    Integer(i64),
    /// A float literal, kept as its source text (digits with one interior
    /// dot); turning it into a machine float is left to callers.
    Float(String),
}

/// `identifier = value`.
#[derive(Debug)]
pub struct Assignment {
    pub identifier: String,
    pub value: Box<Expression>,
}

/// `if condition, then-block` with an optional `else, else-block`.
#[derive(Debug)]
pub struct If {
    pub condition: Box<Expression>,
    pub then_block: Block,
    pub else_block: Option<Block>,
}

/// `callee(arguments)`, or a bare `callee a, b` at top level.
#[derive(Debug)]
pub struct Call {
    pub callee: String,
    pub arguments: Vec<Expression>,
}

/// `left operator right`.
#[derive(Debug)]
pub struct Infix {
    pub left: Box<Expression>,
    pub operator: InfixOp,
    pub right: Box<Expression>,
}

/// A binary operator.
#[derive(Debug, Clone, Copy, PartialEq, Eq, Structural)]
pub enum InfixOp {
    Plus,          // +
    Minus,         // -
    DoubleEquals,  // ==
    NotEquals,     // !=
    Star,          // *
    Slash,         // /
    GreaterThan,   // >
    GreaterEquals, // >=
    LessThan,      // <
    LessEquals,    // <=
}

/// The binary operator a symbol stands for, if any.
pub open spec fn spec_map_operator(symbol: Symbol) -> Option<InfixOp> {
    match symbol {
        Symbol::Plus => Some(InfixOp::Plus),
        Symbol::Minus => Some(InfixOp::Minus),
        Symbol::DoubleEquals => Some(InfixOp::DoubleEquals),
        Symbol::NotEquals => Some(InfixOp::NotEquals),
        Symbol::Star => Some(InfixOp::Star),
        Symbol::Slash => Some(InfixOp::Slash),
        Symbol::GreaterThan => Some(InfixOp::GreaterThan),
        Symbol::GreaterEquals => Some(InfixOp::GreaterEquals),
        Symbol::LessThan => Some(InfixOp::LessThan),
        Symbol::LessEquals => Some(InfixOp::LessEquals),
        _ => None,
    }
}

impl InfixOp {
    /// The operator a symbol token stands for; parentheses, dot and comma
    /// stand for none.
    pub fn map_operator(symbol: Symbol) -> (r: Option<InfixOp>)
        ensures
            r == spec_map_operator(symbol),
    {
        match symbol {
            Symbol::Plus => Some(InfixOp::Plus),
            Symbol::Minus => Some(InfixOp::Minus),
            Symbol::DoubleEquals => Some(InfixOp::DoubleEquals),
            Symbol::NotEquals => Some(InfixOp::NotEquals),
            Symbol::Star => Some(InfixOp::Star),
            Symbol::Slash => Some(InfixOp::Slash),
            Symbol::GreaterThan => Some(InfixOp::GreaterThan),
            Symbol::GreaterEquals => Some(InfixOp::GreaterEquals),
            Symbol::LessThan => Some(InfixOp::LessThan),
            Symbol::LessEquals => Some(InfixOp::LessEquals),
            _ => None,
        }
    }
}

} // verus!
