pub mod model;
pub mod symbol;
pub mod symbol_table;

pub use self::model::TableModel;
pub use self::symbol::{Const, ConstView, Symbol, SymbolView};
pub use self::symbol_table::{SymbolSlot, SymbolTable, SymbolTableIter, SymbolTuple};
