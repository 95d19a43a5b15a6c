//! Share-trade bookkeeping: first-in-first-out lot allocation and capital
//! gains totals per financial year.
//!
//! Purchases are lots. A sale is matched to the lots of its stock, oldest
//! first ([`fifo`]); each match records what the shares cost and what was
//! gained on them. Gains are added up per financial year, which runs from
//! July to June ([`gains`], [`date`]). Money is counted in whole
//! micro-units ([`money`]), so every amount is exact but for the one
//! rounding rule stated there.
//!
//! The rules stand on their own as functions of plain values. [`ledger`]
//! keeps books in memory to which [`services`] apply them, and which stay
//! sound whatever is entered: no lot gives more shares than it was bought
//! with, and a sale is matched in full or not at all.
//!
//! What is taken on trust from other crates is gathered in
//! [`chrono_bridge`], [`csv_bridge`] and [`std_bridge`].

pub mod calendar;
pub mod chrono_bridge;
pub mod csv_bridge;
pub mod date;
pub mod fifo;
pub mod gains;
pub mod ledger;
pub mod models;
pub mod money;
pub mod services;
pub mod std_bridge;
pub mod symbols;
pub mod text;
pub mod ui;
pub mod utils;
