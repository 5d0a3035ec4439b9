//! A small expression language: a reference evaluator and an ahead-of-time
//! code generator targeting a one-accumulator machine with a downward stack.
use vstd::prelude::*;

pub mod env;
pub mod interpreter;
pub mod compiler;
pub mod machine;
pub mod parser;
pub mod printer;

pub use compiler::{compile_expr, compile_to_instrs};
pub use interpreter::{eval, eval_expr};
pub use parser::{parse_bind, parse_expr, SNode};
pub use printer::{instr_to_str, val_to_str};

verus! {

/// An operand of an instruction.
#[derive(Debug, Clone, Copy, PartialEq, Eq, Structural)]
pub enum Val {
    Reg(Reg),
    Imm(i32),
    RegOffset(Reg, i32),
}

/// The registers of the target machine.
#[derive(Debug, Clone, Copy, PartialEq, Eq, Structural)]
pub enum Reg {
    RAX,
    RSP,
}

/// One target instruction: `op dest, src`.
#[derive(Debug, Clone, Copy, PartialEq, Eq, Structural)]
pub enum Instr {
    IMov(Val, Val),
    IAdd(Val, Val),
    ISub(Val, Val),
    IMul(Val, Val),
}

/// Unary operators.
#[derive(Debug, Clone, Copy, PartialEq, Eq, Structural)]
pub enum Op1 {
    Add1,
    Sub1,
}

/// Binary operators.
#[derive(Debug, Clone, Copy, PartialEq, Eq, Structural)]
pub enum Op2 {
    Plus,
    Minus,
    Times,
}

/// An expression of the language.
#[derive(Debug)]
pub enum Expr {
    Number(i32),
    Id(String),
    Let(Vec<(String, Expr)>, Box<Expr>),
    UnOp(Op1, Box<Expr>),
    BinOp(Op2, Box<Expr>, Box<Expr>),
}

/// The errors of parsing, evaluation and compilation.
#[derive(Debug)]
pub enum BoaError {
    /// Malformed input: bad s-expression, wrong arity, unknown operator.
    SyntaxError,
    /// An identifier with no binding in scope.
    UnboundIdentifier(String),
    /// A name bound twice by one `let`.
    DuplicateBinding(String),
    /// An operator keyword used as a binding name.
    ReservedWordMisuse(String),
}

/// The value of a unary operation, with 32-bit wraparound.
pub open spec fn apply1(op: Op1, v: i32) -> i32 {
    match op {
        Op1::Add1 => v.wrapping_add(1),
        Op1::Sub1 => v.wrapping_sub(1),
    }
}

/// The value of a binary operation, with 32-bit wraparound.
pub open spec fn apply2(op: Op2, a: i32, b: i32) -> i32 {
    match op {
        Op2::Plus => a.wrapping_add(b),
        Op2::Minus => a.wrapping_sub(b),
        Op2::Times => a.wrapping_mul(b),
    }
}

} // verus!
