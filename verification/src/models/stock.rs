//! Instruments that can be traded.

use vstd::prelude::*;

verus! {

/// A tradable instrument, known by its symbol.
#[derive(Debug)]
pub struct Stock {
    /// The number the store gave it, once stored.
    pub id: Option<i32>,
    pub symbol: String,
}

impl Stock {
    /// A stock that has not been stored yet.
    pub fn new(symbol: String) -> (stock: Stock)
        ensures
            stock.id.is_none(),
            stock.symbol == symbol,
    {
        Self { id: None, symbol }
    }

    /// A stock as the store holds it.
    pub fn with_id(id: i32, symbol: String) -> (stock: Stock)
        ensures
            stock.id == Some(id),
            stock.symbol == symbol,
    {
        Self { id: Some(id), symbol }
    }
}

} // verus!
