use crate::text::str_eq;
use vstd::prelude::*;
use vstd::std_specs::convert::FromSpecImpl;

verus! {

/// Operator of the "cool" language.
#[derive(Clone, Copy, PartialEq, Eq, Debug, Structural)]
pub enum Operator {
    /// Assignment operator.
    Assignment(AssignmentOperator),
    /// Arithmetic operator.
    Arithmetic(ArithmeticOperator),
    /// Relational operator.
    Relational(RelationalOperator),
    /// Logical operator.
    Logical(LogicalOperator),
    /// Bitwiser operator.
    Bitwise(BitwiseOperator),
}

impl Operator {
    /// The operator that `input` spells: an assignment, else an arithmetic,
    /// a relational, a logical or a bitwise operator, in this order.
    pub open spec fn parse(input: Seq<char>) -> Option<Operator> {
        if AssignmentOperator::parse(input) is Some {
            Some(Operator::Assignment(AssignmentOperator::parse(input)->0))
        } else if ArithmeticOperator::parse(input) is Some {
            Some(Operator::Arithmetic(ArithmeticOperator::parse(input)->0))
        } else if RelationalOperator::parse(input) is Some {
            Some(Operator::Relational(RelationalOperator::parse(input)->0))
        } else if LogicalOperator::parse(input) is Some {
            Some(Operator::Logical(LogicalOperator::parse(input)->0))
        } else if BitwiseOperator::parse(input) is Some {
            Some(Operator::Bitwise(BitwiseOperator::parse(input)->0))
        } else {
            None
        }
    }

    /// Whether a second character may turn the operator into another one:
    /// `=`, `<`, `>`, `!`, `&` and `|` may.
    pub open spec fn extensible(self) -> bool {
        match self {
            Operator::Assignment(_) => true,
            Operator::Arithmetic(_) => false,
            Operator::Relational(operator) => operator == RelationalOperator::Less || operator
                == RelationalOperator::Greater,
            Operator::Logical(operator) => operator == LogicalOperator::Not,
            Operator::Bitwise(operator) => operator == BitwiseOperator::And || operator
                == BitwiseOperator::Or,
        }
    }

    /// Tries to parse the `input` into an operator.
    pub fn try_parse(input: &str) -> (operator: Option<Operator>)
        ensures
            operator == Self::parse(input@),
    {
        if let Some(operator) = AssignmentOperator::try_parse(input) {
            return Some(Self::Assignment(operator));
        }
        if let Some(operator) = ArithmeticOperator::try_parse(input) {
            return Some(Self::Arithmetic(operator));
        }
        if let Some(operator) = RelationalOperator::try_parse(input) {
            return Some(Self::Relational(operator));
        }
        if let Some(operator) = LogicalOperator::try_parse(input) {
            return Some(Self::Logical(operator));
        }
        if let Some(operator) = BitwiseOperator::try_parse(input) {
            return Some(Self::Bitwise(operator));
        }
        None
    }

    /// Returns `true` if the scanner needs to look ahead to determine the correct operator type.
    pub fn needs_lookahead(&self) -> (lookahead: bool)
        ensures
            lookahead == self.extensible(),
    {
        match self {
            Self::Assignment(operator) => operator.needs_lookahead(),
            Self::Arithmetic(operator) => operator.needs_lookahead(),
            Self::Relational(operator) => operator.needs_lookahead(),
            Self::Logical(operator) => operator.needs_lookahead(),
            Self::Bitwise(operator) => operator.needs_lookahead(),
        }
    }
}

impl From<AssignmentOperator> for Operator {
    fn from(operator: AssignmentOperator) -> (wrapped: Operator) {
        Self::Assignment(operator)
    }
}

impl FromSpecImpl<AssignmentOperator> for Operator {
    open spec fn obeys_from_spec() -> bool {
        true
    }

    open spec fn from_spec(operator: AssignmentOperator) -> Operator {
        Operator::Assignment(operator)
    }
}

impl From<ArithmeticOperator> for Operator {
    fn from(operator: ArithmeticOperator) -> (wrapped: Operator) {
        Self::Arithmetic(operator)
    }
}

impl FromSpecImpl<ArithmeticOperator> for Operator {
    open spec fn obeys_from_spec() -> bool {
        true
    }

    open spec fn from_spec(operator: ArithmeticOperator) -> Operator {
        Operator::Arithmetic(operator)
    }
}

impl From<RelationalOperator> for Operator {
    fn from(operator: RelationalOperator) -> (wrapped: Operator) {
        Self::Relational(operator)
    }
}

impl FromSpecImpl<RelationalOperator> for Operator {
    open spec fn obeys_from_spec() -> bool {
        true
    }

    open spec fn from_spec(operator: RelationalOperator) -> Operator {
        Operator::Relational(operator)
    }
}

impl From<LogicalOperator> for Operator {
    fn from(operator: LogicalOperator) -> (wrapped: Operator) {
        Self::Logical(operator)
    }
}

impl FromSpecImpl<LogicalOperator> for Operator {
    open spec fn obeys_from_spec() -> bool {
        true
    }

    open spec fn from_spec(operator: LogicalOperator) -> Operator {
        Operator::Logical(operator)
    }
}

impl From<BitwiseOperator> for Operator {
    fn from(operator: BitwiseOperator) -> (wrapped: Operator) {
        Self::Bitwise(operator)
    }
}

impl FromSpecImpl<BitwiseOperator> for Operator {
    open spec fn obeys_from_spec() -> bool {
        true
    }

    open spec fn from_spec(operator: BitwiseOperator) -> Operator {
        Operator::Bitwise(operator)
    }
}

/// Assignment operator of the "cool" language.
#[derive(Clone, Copy, PartialEq, Eq, Debug, Structural)]
pub struct AssignmentOperator;

impl AssignmentOperator {
    /// The assignment operator, where `input` spells it.
    pub open spec fn parse(input: Seq<char>) -> Option<AssignmentOperator> {
        if input == "="@ {
            Some(AssignmentOperator)
        } else {
            None
        }
    }

    /// Tries to parse the `input` into an assignment operator.
    pub fn try_parse(input: &str) -> (operator: Option<AssignmentOperator>)
        ensures
            operator == Self::parse(input@),
    {
        if str_eq(input, "=") {
            Some(Self)
        } else {
            None
        }
    }

    /// Returns `true` if the scanner needs to look ahead to determine the correct operator type.
    pub fn needs_lookahead(&self) -> (lookahead: bool)
        ensures
            lookahead,
    {
        // = -> ==
        true
    }
}

/// Arithmetic operator of the "cool" language.
#[derive(Clone, Copy, PartialEq, Eq, Debug, Structural)]
pub enum ArithmeticOperator {
    /// Addition operator.
    Addition,
    /// Subtraction operator.
    Subtraction,
    /// Multiplication operator.
    Multiplication,
    /// Division operator.
    Division,
    /// Remainder operator.
    Remainder,
}

impl ArithmeticOperator {
    /// The arithmetic operator that `input` spells.
    pub open spec fn parse(input: Seq<char>) -> Option<ArithmeticOperator> {
        if input == "+"@ {
            Some(ArithmeticOperator::Addition)
        } else if input == "-"@ {
            Some(ArithmeticOperator::Subtraction)
        } else if input == "*"@ {
            Some(ArithmeticOperator::Multiplication)
        } else if input == "/"@ {
            Some(ArithmeticOperator::Division)
        } else if input == "%"@ {
            Some(ArithmeticOperator::Remainder)
        } else {
            None
        }
    }

    /// Tries to parse the `input` into an arithmetic operator.
    pub fn try_parse(input: &str) -> (operator: Option<ArithmeticOperator>)
        ensures
            operator == Self::parse(input@),
    {
        if str_eq(input, "+") {
            Some(Self::Addition)
        } else if str_eq(input, "-") {
            Some(Self::Subtraction)
        } else if str_eq(input, "*") {
            Some(Self::Multiplication)
        } else if str_eq(input, "/") {
            Some(Self::Division)
        } else if str_eq(input, "%") {
            Some(Self::Remainder)
        } else {
            None
        }
    }

    /// Returns `true` if the scanner needs to look ahead to determine the correct operator type.
    pub fn needs_lookahead(&self) -> (lookahead: bool)
        ensures
            !lookahead,
    {
        false
    }
}

/// Relational operator of the "cool" language.
#[derive(Clone, Copy, PartialEq, Eq, Debug, Structural)]
pub enum RelationalOperator {
    /// Equal operator.
    Equal,
    /// Not equal operator.
    NotEqual,
    /// Less than operator.
    Less,
    /// Less than or equal operator.
    LessOrEqual,
    /// Greater than operator.
    Greater,
    /// Greater than or equal operator.
    GreaterOrEqual,
}

impl RelationalOperator {
    /// The relational operator that `input` spells.
    pub open spec fn parse(input: Seq<char>) -> Option<RelationalOperator> {
        if input == "=="@ {
            Some(RelationalOperator::Equal)
        } else if input == "!="@ {
            Some(RelationalOperator::NotEqual)
        } else if input == "<"@ {
            Some(RelationalOperator::Less)
        } else if input == "<="@ {
            Some(RelationalOperator::LessOrEqual)
        } else if input == ">"@ {
            Some(RelationalOperator::Greater)
        } else if input == ">="@ {
            Some(RelationalOperator::GreaterOrEqual)
        } else {
            None
        }
    }

    /// Tries to parse the `input` into a relational operator.
    pub fn try_parse(input: &str) -> (operator: Option<RelationalOperator>)
        ensures
            operator == Self::parse(input@),
    {
        if str_eq(input, "==") {
            Some(Self::Equal)
        } else if str_eq(input, "!=") {
            Some(Self::NotEqual)
        } else if str_eq(input, "<") {
            Some(Self::Less)
        } else if str_eq(input, "<=") {
            Some(Self::LessOrEqual)
        } else if str_eq(input, ">") {
            Some(Self::Greater)
        } else if str_eq(input, ">=") {
            Some(Self::GreaterOrEqual)
        } else {
            None
        }
    }

    /// Returns `true` if the scanner needs to look ahead to determine the correct operator type.
    pub fn needs_lookahead(&self) -> (lookahead: bool)
        ensures
            lookahead == (*self == RelationalOperator::Less || *self
                == RelationalOperator::Greater),
    {
        // < -> <=, > -> >=
        matches!(self, Self::Less | Self::Greater)
    }
}

/// Logical operator of the "cool" language.
#[derive(Clone, Copy, PartialEq, Eq, Debug, Structural)]
pub enum LogicalOperator {
    /// And operator.
    And,
    /// Or operator.
    Or,
    /// Not operator.
    Not,
}

impl LogicalOperator {
    /// The logical operator that `input` spells.
    pub open spec fn parse(input: Seq<char>) -> Option<LogicalOperator> {
        if input == "&&"@ {
            Some(LogicalOperator::And)
        } else if input == "||"@ {
            Some(LogicalOperator::Or)
        } else if input == "!"@ {
            Some(LogicalOperator::Not)
        } else {
            None
        }
    }

    /// Tries to parse the `input` into a logical operator.
    pub fn try_parse(input: &str) -> (operator: Option<LogicalOperator>)
        ensures
            operator == Self::parse(input@),
    {
        if str_eq(input, "&&") {
            Some(Self::And)
        } else if str_eq(input, "||") {
            Some(Self::Or)
        } else if str_eq(input, "!") {
            Some(Self::Not)
        } else {
            None
        }
    }

    /// Returns `true` if the scanner needs to look ahead to determine the correct operator type.
    pub fn needs_lookahead(&self) -> (lookahead: bool)
        ensures
            lookahead == (*self == LogicalOperator::Not),
    {
        // ! -> !=
        matches!(self, Self::Not)
    }
}

/// Bitwise operator of the "cool" language.
#[derive(Clone, Copy, PartialEq, Eq, Debug, Structural)]
pub enum BitwiseOperator {
    /// Bitwise and operator.
    And,
    /// Bitwise or operator.
    Or,
    /// Bitwise not operator.
    Not,
}

impl BitwiseOperator {
    /// The bitwise operator that `input` spells.
    pub open spec fn parse(input: Seq<char>) -> Option<BitwiseOperator> {
        if input == "&"@ {
            Some(BitwiseOperator::And)
        } else if input == "|"@ {
            Some(BitwiseOperator::Or)
        } else if input == "^"@ {
            Some(BitwiseOperator::Not)
        } else {
            None
        }
    }

    /// Tries to parse the `input` into a bitwise operator.
    pub fn try_parse(input: &str) -> (operator: Option<BitwiseOperator>)
        ensures
            operator == Self::parse(input@),
    {
        if str_eq(input, "&") {
            Some(Self::And)
        } else if str_eq(input, "|") {
            Some(Self::Or)
        } else if str_eq(input, "^") {
            Some(Self::Not)
        } else {
            None
        }
    }

    /// Returns `true` if the scanner needs to look ahead to determine the correct operator type.
    pub fn needs_lookahead(&self) -> (lookahead: bool)
        ensures
            lookahead == (*self == BitwiseOperator::And || *self == BitwiseOperator::Or),
    {
        // & -> &&, | -> ||
        matches!(self, Self::And | Self::Or)
    }
}

} // verus!
