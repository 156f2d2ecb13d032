//! The syntax tree: pure data, equality is structural, no behaviour of its
//! own. Malformed trees (references to names never declared) are only
//! detected during emission.

use vstd::prelude::*;

verus! {

/// A whole source program: an ordered sequence of statements standing for one
/// function body. May be empty.
#[derive(Debug)]
pub struct Program(pub Vec<Statement>);

/// One statement.
#[derive(Debug, PartialEq)]
pub enum Statement {
    Variable(VarStatement),
    Print(PrintStatement),
}

/// `var name = value;` — declares `name` and binds it to the value of
/// `value`. Declaring a name again rebinds it to a fresh slot.
#[derive(Debug, PartialEq)]
pub struct VarStatement {
    pub name: String,
    pub value: Box<Expression>,
}

/// `print value;` — evaluates `value` for its value; no further backend
/// instruction is emitted for the printing itself.
#[derive(Debug, PartialEq)]
pub struct PrintStatement {
    pub value: Box<Expression>,
}

/// An expression over 64-bit signed integers.
#[derive(Debug, PartialEq)]
pub enum Expression {
    Integer(i64),
    Variable(String),
    BinaryOperation { lhs: Box<Expression>, operator: Operator, rhs: Box<Expression> },
}

/// The closed set of binary operators.
#[derive(Clone, Copy, Debug, PartialEq, Eq, Structural)]
pub enum Operator {
    Add,
    Sub,
    Mul,
    Div,
}

} // verus!
