use crate::utils;
use vstd::prelude::*;
use vstd::std_specs::cmp::PartialEqSpecImpl;

verus! {

/// Constant that can be stored in a symbol table.
#[derive(Debug)]
pub enum Const {
    /// 32-bit integer constant.
    I32(i32),
    /// Unicode scalar constant.
    Char(char),
    /// Boolean constant.
    Bool(bool),
    /// String constant.
    Str(String),
}

/// What a [`Const`] stands for: the same variants, a string by its characters.
pub enum ConstView {
    I32(i32),
    Char(char),
    Bool(bool),
    Str(Seq<char>),
}

impl View for Const {
    type V = ConstView;

    open spec fn view(&self) -> ConstView {
        match self {
            Const::I32(value) => ConstView::I32(*value),
            Const::Char(value) => ConstView::Char(*value),
            Const::Bool(value) => ConstView::Bool(*value),
            Const::Str(value) => ConstView::Str(value@),
        }
    }
}

impl ConstView {
    /// The hash code of a constant: an integer by the bits of its 64-bit
    /// sign extension, a character or a boolean by its ordinal, a string by
    /// [`utils::hash_chars`].
    pub open spec fn hash_code(self) -> u64 {
        match self {
            ConstView::I32(value) => if value >= 0 {
                value as u64
            } else {
                (value + 0x1_0000_0000_0000_0000) as u64
            },
            ConstView::Char(value) => value as u64,
            ConstView::Bool(value) => if value { 1 } else { 0 },
            ConstView::Str(value) => utils::hash_chars(value),
        }
    }
}

impl Const {
    /// Returns the hash code of the constant.
    pub fn hash_code(&self) -> (hash: u64)
        ensures
            hash == self@.hash_code(),
    {
        match self {
            Const::I32(value) => {
                let wide: i64 = *value as i64;
                if wide >= 0 {
                    wide as u64
                } else {
                    u64::MAX - ((-(wide + 1)) as u64)
                }
            },
            Const::Char(value) => *value as u64,
            Const::Bool(value) => if *value { 1 } else { 0 },
            Const::Str(value) => utils::hash_str(value.as_str()),
        }
    }
}

impl Clone for Const {
    fn clone(&self) -> (copy: Const)
        ensures
            copy@ == self@,
    {
        match self {
            Const::I32(value) => Const::I32(*value),
            Const::Char(value) => Const::Char(*value),
            Const::Bool(value) => Const::Bool(*value),
            Const::Str(value) => Const::Str(value.clone()),
        }
    }
}

impl PartialEq for Const {
    fn eq(&self, other: &Const) -> (equal: bool) {
        match (self, other) {
            (Const::I32(a), Const::I32(b)) => *a == *b,
            (Const::Char(a), Const::Char(b)) => *a == *b,
            (Const::Bool(a), Const::Bool(b)) => *a == *b,
            (Const::Str(a), Const::Str(b)) => *a == *b,
            _ => false,
        }
    }
}

impl Eq for Const {}

impl PartialEqSpecImpl for Const {
    open spec fn obeys_eq_spec() -> bool {
        true
    }

    open spec fn eq_spec(&self, other: &Const) -> bool {
        self@ == other@
    }
}

/// Identifier or constant that can be stored in a symbol table.
#[derive(Debug)]
pub enum Symbol {
    /// Identifier.
    Ident(String),
    /// Constant.
    Const(Const),
}

/// What a [`Symbol`] stands for: an identifier by its characters, a constant by its view.
pub enum SymbolView {
    Ident(Seq<char>),
    Const(ConstView),
}

impl View for Symbol {
    type V = SymbolView;

    open spec fn view(&self) -> SymbolView {
        match self {
            Symbol::Ident(name) => SymbolView::Ident(name@),
            Symbol::Const(value) => SymbolView::Const(value@),
        }
    }
}

impl SymbolView {
    /// The hash code of a symbol: an identifier by [`utils::hash_chars`] of
    /// its name, a constant by its own hash code.
    pub open spec fn hash_code(self) -> u64 {
        match self {
            SymbolView::Ident(name) => utils::hash_chars(name),
            SymbolView::Const(value) => value.hash_code(),
        }
    }
}

impl Symbol {
    /// Returns the hash code of the symbol.
    pub fn hash_code(&self) -> (hash: u64)
        ensures
            hash == self@.hash_code(),
    {
        match self {
            Symbol::Ident(value) => utils::hash_str(value.as_str()),
            Symbol::Const(value) => value.hash_code(),
        }
    }
}

impl Clone for Symbol {
    fn clone(&self) -> (copy: Symbol)
        ensures
            copy@ == self@,
    {
        match self {
            Symbol::Ident(name) => Symbol::Ident(name.clone()),
            Symbol::Const(value) => Symbol::Const(value.clone()),
        }
    }
}

impl PartialEq for Symbol {
    fn eq(&self, other: &Symbol) -> (equal: bool) {
        match (self, other) {
            (Symbol::Ident(a), Symbol::Ident(b)) => *a == *b,
            (Symbol::Const(a), Symbol::Const(b)) => *a == *b,
            _ => false,
        }
    }
}

impl Eq for Symbol {}

impl PartialEqSpecImpl for Symbol {
    open spec fn obeys_eq_spec() -> bool {
        true
    }

    open spec fn eq_spec(&self, other: &Symbol) -> bool {
        self@ == other@
    }
}

impl From<Const> for Symbol {
    fn from(c: Const) -> (symbol: Symbol) {
        Symbol::Const(c)
    }
}

impl vstd::std_specs::convert::FromSpecImpl<Const> for Symbol {
    open spec fn obeys_from_spec() -> bool {
        true
    }

    open spec fn from_spec(c: Const) -> Symbol {
        Symbol::Const(c)
    }
}

} // verus!
