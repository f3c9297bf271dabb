use crate::scanner::tokens::operators::Operator;
use crate::scanner::tokens::reserved_words::ReservedWord;
use crate::scanner::tokens::separators::Separator;
use vstd::prelude::*;
use vstd::std_specs::convert::FromSpecImpl;

verus! {

/// Token of the "cool" language.
#[derive(Clone, Copy, PartialEq, Eq, Debug, Structural)]
pub enum Token {
    /// Separator.
    Separator(Separator),
    /// Operator.
    Operator(Operator),
    /// Reserved word.
    ReservedWord(ReservedWord),
    /// Literal.
    Literal(usize),
    /// Identifier.
    Ident(usize),
}

impl From<Separator> for Token {
    fn from(separator: Separator) -> (token: Token) {
        Self::Separator(separator)
    }
}

impl FromSpecImpl<Separator> for Token {
    open spec fn obeys_from_spec() -> bool {
        true
    }

    open spec fn from_spec(separator: Separator) -> Token {
        Token::Separator(separator)
    }
}

impl From<Operator> for Token {
    fn from(operator: Operator) -> (token: Token) {
        Self::Operator(operator)
    }
}

impl FromSpecImpl<Operator> for Token {
    open spec fn obeys_from_spec() -> bool {
        true
    }

    open spec fn from_spec(operator: Operator) -> Token {
        Token::Operator(operator)
    }
}

impl From<ReservedWord> for Token {
    fn from(reserved_word: ReservedWord) -> (token: Token) {
        Self::ReservedWord(reserved_word)
    }
}

impl FromSpecImpl<ReservedWord> for Token {
    open spec fn obeys_from_spec() -> bool {
        true
    }

    open spec fn from_spec(reserved_word: ReservedWord) -> Token {
        Token::ReservedWord(reserved_word)
    }
}

} // verus!
