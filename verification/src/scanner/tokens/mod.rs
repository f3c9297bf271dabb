pub mod literal;
pub mod operators;
pub mod reserved_words;
pub mod separators;
pub mod token;

pub use self::literal::{Literal, LiteralKind};
pub use self::operators::{
    ArithmeticOperator, AssignmentOperator, BitwiseOperator, LogicalOperator, Operator,
    RelationalOperator,
};
pub use self::reserved_words::{BoolLiteral, ControlFlow, Primitive, ReservedWord};
pub use self::separators::Separator;
pub use self::token::Token;
