//! The records of a portfolio.
//!
//! Amounts, prices and rates are not part of a record here: whoever computes with them
//! keeps them beside it and finds them by the record's position in its list. What a
//! decision needs to know of an amount stands in the record as a fact about it.

use vstd::prelude::*;

verus! {

/// How an amount compares with zero. An amount that is no number is `Unordered`.
#[derive(Clone, Copy, PartialEq, Eq, Structural)]
pub enum AmountSign {
    Negative,
    Zero,
    Positive,
    Unordered,
}

/// A purchase, a sale, an opening position or one side of a transfer.
pub struct Transaction {
    pub id: i64,
    pub account_id: i64,
    pub account_name: String,
    pub code: String,
    pub name: String,
    pub provider_symbol: String,
    pub transaction_type: String,
    pub trade_date: String,
    pub timestamp: i64,
    pub currency: String,
    pub settle_cash: bool,
    /// The price is greater than zero.
    pub priced: bool,
}

/// A share split of one security.
pub struct SplitEvent {
    pub provider_symbol: String,
    pub timestamp: i64,
}

/// A movement of cash in an account.
pub struct CashEntry {
    pub id: i64,
    pub account_id: i64,
    pub kind: String,
    pub description: String,
    pub currency: String,
    pub occurred_at: i64,
    pub sign: AmountSign,
}

/// One point of a price history: when it was, and whether its value is above zero.
#[derive(Clone, Copy)]
pub struct PricePoint {
    pub timestamp: i64,
    pub positive: bool,
}

/// A distribution of a security per share.
pub struct DividendEvent {
    pub timestamp: i64,
    pub currency: String,
    /// The amount per share is greater than zero.
    pub positive: bool,
}

/// A holding of a security in an account.
pub struct Position {
    pub id: i64,
    pub account_id: i64,
    pub account_name: String,
    pub code: String,
    pub name: String,
    pub exchange: String,
    pub provider_symbol: String,
    pub currency: String,
    pub quote_updated_at: Option<i64>,
    /// A last price is known.
    pub priced: bool,
}

/// An account of the portfolio.
pub struct Account {
    pub id: i64,
    pub name: String,
    pub currency: String,
    /// The cash balance is further from zero than half a cent.
    pub holds_cash: bool,
}

/// A security that is watched.
pub struct WatchlistItem {
    pub id: i64,
    pub code: String,
    pub name: String,
    pub exchange: String,
    pub provider_symbol: String,
    pub currency: String,
    pub asset_type: String,
}

/// A security that was found by a search or chosen elsewhere.
pub struct SearchResult {
    pub provider_symbol: String,
    pub code: String,
    pub exchange: String,
    pub name: String,
    pub asset_type: String,
    pub currency: String,
}

} // verus!
