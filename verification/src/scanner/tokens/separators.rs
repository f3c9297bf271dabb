use crate::text::{str_eq, trim, trimmed};
use vstd::prelude::*;

verus! {

/// Separator of the "cool" language.
#[derive(Clone, Copy, PartialEq, Eq, Debug, Structural)]
pub enum Separator {
    /// Any kind of whitespace.
    Whitespace,
    /// ;
    Semicolon,
    /// :
    Colon,
    /// (
    OpenParanthesis,
    /// )
    ClosedParanthesis,
    /// [
    OpenSquareBracket,
    /// ]
    ClosedSquareBracket,
    /// {
    OpenBracket,
    /// }
    ClosedBracket,
}

impl Separator {
    /// The punctuation mark that `input` is, if it is one.
    pub open spec fn punctuation(input: Seq<char>) -> Option<Separator> {
        if input == ";"@ {
            Some(Separator::Semicolon)
        } else if input == ":"@ {
            Some(Separator::Colon)
        } else if input == "("@ {
            Some(Separator::OpenParanthesis)
        } else if input == ")"@ {
            Some(Separator::ClosedParanthesis)
        } else if input == "["@ {
            Some(Separator::OpenSquareBracket)
        } else if input == "]"@ {
            Some(Separator::ClosedSquareBracket)
        } else if input == "{"@ {
            Some(Separator::OpenBracket)
        } else if input == "}"@ {
            Some(Separator::ClosedBracket)
        } else {
            None
        }
    }

    /// The separator that `input` is, where `rest` is what is left of `input`
    /// without the whitespace at its ends: whitespace where nothing is left,
    /// else the punctuation mark that `input` is.
    pub open spec fn classify(input: Seq<char>, rest: Seq<char>) -> Option<Separator> {
        if rest.len() == 0 {
            Some(Separator::Whitespace)
        } else {
            Self::punctuation(input)
        }
    }

    /// The separator that `input` is: whitespace where `input` holds nothing
    /// else, or one of the punctuation marks.
    pub open spec fn parse(input: Seq<char>) -> Option<Separator> {
        Self::classify(input, trimmed(input))
    }

    /// Tries to parse the `input` into a separator.
    pub fn try_parse(input: &str) -> (separator: Option<Separator>)
        ensures
            separator == Self::parse(input@),
    {
        Self::try_parse_trimmed(input, trim(input))
    }

    /// Tries to parse the `input` into a separator, given what is left of it
    /// without the whitespace at its ends.
    pub fn try_parse_trimmed(input: &str, rest: &str) -> (separator: Option<Separator>)
        ensures
            separator == Self::classify(input@, rest@),
    {
        if rest.is_empty() {
            Some(Self::Whitespace)
        } else if str_eq(input, ";") {
            Some(Self::Semicolon)
        } else if str_eq(input, ":") {
            Some(Self::Colon)
        } else if str_eq(input, "(") {
            Some(Self::OpenParanthesis)
        } else if str_eq(input, ")") {
            Some(Self::ClosedParanthesis)
        } else if str_eq(input, "[") {
            Some(Self::OpenSquareBracket)
        } else if str_eq(input, "]") {
            Some(Self::ClosedSquareBracket)
        } else if str_eq(input, "{") {
            Some(Self::OpenBracket)
        } else if str_eq(input, "}") {
            Some(Self::ClosedBracket)
        } else {
            None
        }
    }

    /// Returns whether the separator is whitespace.
    pub fn is_whitespace(&self) -> (whitespace: bool)
        ensures
            whitespace == (*self == Separator::Whitespace),
    {
        matches!(self, Self::Whitespace)
    }
}

} // verus!
