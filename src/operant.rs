//! Operands of unresolved commands.
use vstd::prelude::*;
use crate::lexer::Token;

verus! {

/// How an operand was written: `#n` or `n` is fixed, `(n)` is an address,
/// a bare name is a label.
#[derive(Debug, Clone, Copy, PartialEq, Eq, Structural)]
pub enum OperantKind {
    Fixed,
    Address,
    Label,
}

/// An operand: its kind and the token that holds its value.
#[derive(Debug, Clone, Copy, PartialEq, Eq, Structural)]
pub struct Operant {
    pub kind: OperantKind,
    pub value: Token,
}

} // verus!
