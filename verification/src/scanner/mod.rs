pub mod error;
pub mod model;
pub mod scanner;
pub mod tokens;

pub use self::error::{LexicalError, LexicalErrorModel};
pub use self::model::{Lexeme, ProgramModel, ScanState};
pub use self::scanner::{
    checked_parse_i32, parse_char_literal, parse_i32, parse_str_literal, Program,
};
pub use self::tokens::{
    ArithmeticOperator, AssignmentOperator, BitwiseOperator, BoolLiteral, ControlFlow, Literal,
    LiteralKind, LogicalOperator, Operator, Primitive, RelationalOperator, ReservedWord,
    Separator, Token,
};
