//! Text for people.

pub mod transaction_formatter;

pub use transaction_formatter::TransactionFormatter;
