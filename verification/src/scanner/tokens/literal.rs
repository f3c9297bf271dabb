use vstd::prelude::*;

verus! {

/// Literal of the "cool" language.
#[derive(Clone, Copy, PartialEq, Eq, Debug, Structural)]
pub struct Literal {
    /// Id in the constant symbol table.
    pub id: usize,
    /// Type of literal.
    pub kind: LiteralKind,
}

impl Literal {
    pub fn new(id: usize, kind: LiteralKind) -> (literal: Literal)
        ensures
            literal == (Literal { id, kind }),
    {
        Self { id, kind }
    }
}

/// Type of literal.
#[derive(Clone, Copy, PartialEq, Eq, Debug, Structural)]
pub enum LiteralKind {
    /// `i32` literal.
    I32,
    /// `char` literal.
    Char,
    /// `str` literal.
    Str,
}

} // verus!
