//! The records the books are made of.

pub mod allocation;
pub mod stock;
pub mod summary;
pub mod transaction;

pub use allocation::SellAllocation;
pub use stock::Stock;
pub use summary::CapitalGainsSummary;
pub use transaction::{BuyTransaction, SellTransaction, Transaction};
