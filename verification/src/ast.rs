//! The abstract syntax tree the compiler consumes.
//!
//! This is the compiler's own model of the parsed source: plain owned data,
//! with one `Unsupported` variant per node kind standing for everything the
//! parser can produce that this compiler rejects. A numeric literal carries
//! the IEEE 754 binary64 bit pattern of its float64 value.

use vstd::prelude::*;

verus! {

/// A whole parsed compilation unit: its top-level statements in order.
pub struct Program {
    pub body: Vec<Statement>,
}

pub enum Statement {
    Expression(Expression),
    Declaration(Declaration),
    /// `if (test) consequent` with an optional `else` alternate.
    If(Expression, Box<Statement>, Option<Box<Statement>>),
    Empty,
    Block(Vec<Statement>),
    /// Any statement kind this compiler does not accept.
    Unsupported,
}

pub enum Declaration {
    /// A variable declaration: its kind keyword and its declarators in order.
    Variable(VariableDeclarationKind, Vec<Declarator>),
    /// Any declaration kind this compiler does not accept.
    Unsupported,
}

pub enum VariableDeclarationKind {
    Var,
    Let,
    Const,
}

/// One `pattern = initializer` declarator of a variable declaration.
pub struct Declarator {
    pub id: BindingPattern,
    pub init: Option<Expression>,
}

pub enum BindingPattern {
    /// A simple identifier binding.
    Identifier(String),
    /// An array pattern; absent elements are holes (`[a, , b]`).
    Array(Vec<Option<BindingPattern>>),
    /// An object pattern, by the keys of its properties.
    Object(Vec<PropertyKey>),
    /// A default-value sub-pattern, which this compiler does not accept.
    Assignment,
}

pub enum PropertyKey {
    Identifier(String),
    /// A computed or expression key, which this compiler does not accept.
    Expression,
    /// Any other key kind this compiler does not accept.
    Unsupported,
}

pub enum BinaryOperator {
    Add,
    Sub,
    Mul,
    Div,
    StrictEq,
    /// Any other operator, which this compiler does not accept.
    Unsupported,
}

pub enum Expression {
    /// A numeric literal, by the bit pattern of its float64 value.
    NumericLiteral(u64),
    BooleanLiteral(bool),
    StringLiteral(String),
    Binary(BinaryOperator, Box<Expression>, Box<Expression>),
    Identifier(String),
    /// Any expression kind this compiler does not accept.
    Unsupported,
}

} // verus!
