use crate::text::str_eq;
use vstd::prelude::*;

verus! {

/// Reserved words of the "cool" language.
#[derive(Clone, Copy, PartialEq, Eq, Debug, Structural)]
pub enum ReservedWord {
    /// Primitive types.
    Primitive(Primitive),
    /// Control flow.
    ControlFlow(ControlFlow),
    /// `true` and `false`.
    BoolLiteral(BoolLiteral),
}

impl ReservedWord {
    /// The reserved word that `input` spells: a primitive type, else a
    /// control flow word, else a boolean literal.
    pub open spec fn parse(input: Seq<char>) -> Option<ReservedWord> {
        if Primitive::parse(input) is Some {
            Some(ReservedWord::Primitive(Primitive::parse(input)->0))
        } else if ControlFlow::parse(input) is Some {
            Some(ReservedWord::ControlFlow(ControlFlow::parse(input)->0))
        } else if BoolLiteral::parse(input) is Some {
            Some(ReservedWord::BoolLiteral(BoolLiteral::parse(input)->0))
        } else {
            None
        }
    }

    /// Tries to parse the `input` into a reserved word.
    pub fn try_parse(input: &str) -> (reserved_word: Option<ReservedWord>)
        ensures
            reserved_word == Self::parse(input@),
    {
        if let Some(primitive) = Primitive::try_parse(input) {
            return Some(Self::Primitive(primitive));
        };

        if let Some(control_flow) = ControlFlow::try_parse(input) {
            return Some(Self::ControlFlow(control_flow));
        };

        if let Some(bool_literal) = BoolLiteral::try_parse(input) {
            return Some(Self::BoolLiteral(bool_literal));
        };

        None
    }
}

/// Primitive type of the "cool" language.
#[derive(Clone, Copy, PartialEq, Eq, Debug, Structural)]
pub enum Primitive {
    /// `i32`.
    I32,
    /// `bool`.
    Bool,
    /// `char`.
    Char,
    /// `str`.
    Str,
}

impl Primitive {
    /// The primitive type that `input` spells.
    pub open spec fn parse(input: Seq<char>) -> Option<Primitive> {
        if input == "i32"@ {
            Some(Primitive::I32)
        } else if input == "bool"@ {
            Some(Primitive::Bool)
        } else if input == "char"@ {
            Some(Primitive::Char)
        } else if input == "str"@ {
            Some(Primitive::Str)
        } else {
            None
        }
    }

    /// Tries to parse the `input` into a primitive.
    pub fn try_parse(input: &str) -> (primitive: Option<Primitive>)
        ensures
            primitive == Self::parse(input@),
    {
        if str_eq(input, "i32") {
            Some(Self::I32)
        } else if str_eq(input, "bool") {
            Some(Self::Bool)
        } else if str_eq(input, "char") {
            Some(Self::Char)
        } else if str_eq(input, "str") {
            Some(Self::Str)
        } else {
            None
        }
    }
}

/// Control flow word of the "cool" language.
#[derive(Clone, Copy, PartialEq, Eq, Debug, Structural)]
pub enum ControlFlow {
    /// `if`.
    If,
    /// `else`.
    Else,
    /// `for`.
    For,
    /// `in`.
    In,
    /// `while`.
    While,
}

impl ControlFlow {
    /// The control flow word that `input` spells.
    pub open spec fn parse(input: Seq<char>) -> Option<ControlFlow> {
        if input == "if"@ {
            Some(ControlFlow::If)
        } else if input == "else"@ {
            Some(ControlFlow::Else)
        } else if input == "for"@ {
            Some(ControlFlow::For)
        } else if input == "in"@ {
            Some(ControlFlow::In)
        } else if input == "while"@ {
            Some(ControlFlow::While)
        } else {
            None
        }
    }

    /// Tries to parse the `input` into a control flow word.
    pub fn try_parse(input: &str) -> (control_flow: Option<ControlFlow>)
        ensures
            control_flow == Self::parse(input@),
    {
        if str_eq(input, "if") {
            Some(Self::If)
        } else if str_eq(input, "else") {
            Some(Self::Else)
        } else if str_eq(input, "for") {
            Some(Self::For)
        } else if str_eq(input, "in") {
            Some(Self::In)
        } else if str_eq(input, "while") {
            Some(Self::While)
        } else {
            None
        }
    }
}

/// Boolean literal of the "cool" language.
#[derive(Clone, Copy, PartialEq, Eq, Debug, Structural)]
pub enum BoolLiteral {
    /// `true`.
    True,
    /// `false`.
    False,
}

impl BoolLiteral {
    /// The boolean literal that `input` spells.
    pub open spec fn parse(input: Seq<char>) -> Option<BoolLiteral> {
        if input == "true"@ {
            Some(BoolLiteral::True)
        } else if input == "false"@ {
            Some(BoolLiteral::False)
        } else {
            None
        }
    }

    /// Tries to parse the `input` into a boolean literal.
    pub fn try_parse(input: &str) -> (bool_literal: Option<BoolLiteral>)
        ensures
            bool_literal == Self::parse(input@),
    {
        if str_eq(input, "true") {
            Some(Self::True)
        } else if str_eq(input, "false") {
            Some(Self::False)
        } else {
            None
        }
    }
}

} // verus!
