//! A small calculator with a persistent history: the operators, the
//! calculator's input and evaluation state, the history records and their
//! keys, the displayed number format, and where the history is kept.

pub mod calculator;
pub mod history;
pub mod number;
pub mod operator;
pub mod paths;
pub mod text;

pub use calculator::{CalculatorState, Evaluation, Outcome};
pub use history::{entry_text, history_key, HistoryStore, PendingRecord};
pub use number::{with_decimal_comma, with_decimal_point};
pub use operator::Operator;
pub use paths::resolve_database_path;
