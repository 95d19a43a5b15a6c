//! Purchases and sales of shares.

use crate::date::Date;
use crate::money::Money;
use vstd::prelude::*;

verus! {

/// What a purchase and a sale have in common.
pub trait Transaction {
    /// The number the store gave the transaction, if it is stored.
    spec fn number(&self) -> Option<i32>;

    /// The symbol of the stock traded.
    spec fn symbol(&self) -> Seq<char>;

    /// The day of the trade.
    spec fn day(&self) -> Date;

    /// The note on the transaction, if there is one.
    spec fn note(&self) -> Option<Seq<char>>;

    /// The number of shares traded, as mathematics.
    spec fn quantity(&self) -> int;

    /// The price of one share in micro-units, as mathematics.
    spec fn unit_price(&self) -> int;

    /// The fees paid in micro-units, as mathematics.
    spec fn fee_amount(&self) -> int;

    fn get_id(&self) -> (id: Option<i32>)
        ensures
            id == self.number(),
    ;

    fn get_stock_id(&self) -> (s: &str)
        ensures
            s@ == self.symbol(),
    ;

    fn get_date(&self) -> (d: &Date)
        ensures
            *d == self.day(),
    ;

    fn get_quantity(&self) -> (q: u32)
        ensures
            q == self.quantity(),
    ;

    fn get_price_per_share(&self) -> (p: Money)
        ensures
            p@ == self.unit_price(),
    ;

    fn get_fees(&self) -> (f: Money)
        ensures
            f@ == self.fee_amount(),
    ;

    fn get_notes(&self) -> (n: Option<&str>)
        ensures
            match n {
                Some(text) => self.note() == Some(text@),
                None => self.note().is_none(),
            },
    ;

    /// The price of all the shares traded, in micro-units.
    fn get_transaction_value(&self) -> (v: i128)
        ensures
            v == self.unit_price() * self.quantity(),
    {
        let p = self.get_price_per_share();
        let q = self.get_quantity();
        assert(-0x8000_0000_0000_0000 * 0x1_0000_0000 <= p@ * q <= 0x8000_0000_0000_0000
            * 0x1_0000_0000) by (nonlinear_arith)
            requires
                -0x8000_0000_0000_0000 <= p@ <= 0x8000_0000_0000_0000,
                0 <= q <= 0x1_0000_0000,
        ;
        p.micros() as i128 * q as i128
    }

    /// The price of all the shares traded plus the fees, in micro-units.
    fn get_total_cost(&self) -> (v: i128)
        ensures
            v == self.unit_price() * self.quantity() + self.fee_amount(),
    {
        let f = self.get_fees();
        let p = self.get_price_per_share();
        let q = self.get_quantity();
        assert(-0x8000_0000_0000_0000 * 0x1_0000_0000 <= p@ * q <= 0x8000_0000_0000_0000
            * 0x1_0000_0000) by (nonlinear_arith)
            requires
                -0x8000_0000_0000_0000 <= p@ <= 0x8000_0000_0000_0000,
                0 <= q <= 0x1_0000_0000,
        ;
        self.get_transaction_value() + f.micros() as i128
    }
}

/// A purchase of shares: one lot.
#[derive(Debug)]
pub struct BuyTransaction {
    /// The number the store gave it, once stored.
    pub id: Option<i32>,
    pub stock_id: String,
    pub date: Date,
    pub quantity: u32,
    pub price_per_share: Money,
    pub fees: Money,
    pub notes: Option<String>,
}

impl BuyTransaction {
    /// A purchase that has not been stored yet.
    pub fn new(
        stock_id: String,
        date: Date,
        quantity: u32,
        price_per_share: Money,
        fees: Money,
        notes: Option<String>,
    ) -> (tx: BuyTransaction)
        ensures
            tx == (BuyTransaction {
                id: None,
                stock_id,
                date,
                quantity,
                price_per_share,
                fees,
                notes,
            }),
    {
        Self { id: None, stock_id, date, quantity, price_per_share, fees, notes }
    }

    /// A second copy of the purchase.
    pub fn duplicate(&self) -> (copy: BuyTransaction)
        ensures
            copy == *self,
    {
        Self {
            id: self.id,
            stock_id: self.stock_id.clone(),
            date: self.date,
            quantity: self.quantity,
            price_per_share: self.price_per_share,
            fees: self.fees,
            notes: match &self.notes {
                Some(text) => Some(text.clone()),
                None => None,
            },
        }
    }
}

impl Transaction for BuyTransaction {
    open spec fn number(&self) -> Option<i32> {
        self.id
    }

    open spec fn symbol(&self) -> Seq<char> {
        self.stock_id@
    }

    open spec fn day(&self) -> Date {
        self.date
    }

    open spec fn note(&self) -> Option<Seq<char>> {
        match self.notes {
            Some(text) => Some(text@),
            None => None,
        }
    }

    open spec fn quantity(&self) -> int {
        self.quantity as int
    }

    open spec fn unit_price(&self) -> int {
        self.price_per_share@
    }

    open spec fn fee_amount(&self) -> int {
        self.fees@
    }

    fn get_id(&self) -> (id: Option<i32>) {
        self.id
    }

    fn get_stock_id(&self) -> (s: &str) {
        self.stock_id.as_str()
    }

    fn get_date(&self) -> (d: &Date) {
        &self.date
    }

    fn get_quantity(&self) -> (q: u32) {
        self.quantity
    }

    fn get_price_per_share(&self) -> (p: Money) {
        self.price_per_share
    }

    fn get_fees(&self) -> (f: Money) {
        self.fees
    }

    fn get_notes(&self) -> (n: Option<&str>) {
        match &self.notes {
            Some(s) => Some(s.as_str()),
            None => None,
        }
    }
}

/// A sale of shares.
#[derive(Debug)]
pub struct SellTransaction {
    /// The number the store gave it, once stored.
    pub id: Option<i32>,
    pub stock_id: String,
    pub date: Date,
    pub quantity: u32,
    pub price_per_share: Money,
    pub fees: Money,
    pub notes: Option<String>,
}

impl SellTransaction {
    /// A sale that has not been stored yet.
    pub fn new(
        stock_id: String,
        date: Date,
        quantity: u32,
        price_per_share: Money,
        fees: Money,
        notes: Option<String>,
    ) -> (tx: SellTransaction)
        ensures
            tx == (SellTransaction {
                id: None,
                stock_id,
                date,
                quantity,
                price_per_share,
                fees,
                notes,
            }),
    {
        Self { id: None, stock_id, date, quantity, price_per_share, fees, notes }
    }

    /// A second copy of the sale.
    pub fn duplicate(&self) -> (copy: SellTransaction)
        ensures
            copy == *self,
    {
        Self {
            id: self.id,
            stock_id: self.stock_id.clone(),
            date: self.date,
            quantity: self.quantity,
            price_per_share: self.price_per_share,
            fees: self.fees,
            notes: match &self.notes {
                Some(text) => Some(text.clone()),
                None => None,
            },
        }
    }
}

impl Transaction for SellTransaction {
    open spec fn number(&self) -> Option<i32> {
        self.id
    }

    open spec fn symbol(&self) -> Seq<char> {
        self.stock_id@
    }

    open spec fn day(&self) -> Date {
        self.date
    }

    open spec fn note(&self) -> Option<Seq<char>> {
        match self.notes {
            Some(text) => Some(text@),
            None => None,
        }
    }

    open spec fn quantity(&self) -> int {
        self.quantity as int
    }

    open spec fn unit_price(&self) -> int {
        self.price_per_share@
    }

    open spec fn fee_amount(&self) -> int {
        self.fees@
    }

    fn get_id(&self) -> (id: Option<i32>) {
        self.id
    }

    fn get_stock_id(&self) -> (s: &str) {
        self.stock_id.as_str()
    }

    fn get_date(&self) -> (d: &Date) {
        &self.date
    }

    fn get_quantity(&self) -> (q: u32) {
        self.quantity
    }

    fn get_price_per_share(&self) -> (p: Money) {
        self.price_per_share
    }

    fn get_fees(&self) -> (f: Money) {
        self.fees
    }

    fn get_notes(&self) -> (n: Option<&str>) {
        match &self.notes {
            Some(s) => Some(s.as_str()),
            None => None,
        }
    }
}

} // verus!
