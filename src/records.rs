//! The records the ledger exchanges with its store and its documents.
use vstd::prelude::*;

verus! {

/// A customer invoices are addressed to.
#[derive(Clone, Debug, PartialEq)]
pub struct Customer {
    pub company: String,
    pub address: String,
    pub city: String,
    pub postal_code: String,
    pub country: String,
}

/// The issuer's own contact block.
#[derive(Clone, Debug, PartialEq)]
pub struct Contact {
    pub company: String,
    pub address: String,
    pub city: String,
    pub postal_code: String,
    pub country: String,
    pub name: String,
    pub telephone: String,
    pub email: String,
    pub website: String,
}

/// One persisted line item. Quantity and price are in thousandths, the
/// total in millionths.
#[derive(Clone, Debug, PartialEq)]
pub struct DatabaseData {
    pub entry_id: String,
    pub estimate_number: usize,
    pub cust_id: String,
    pub row_number: usize,
    pub description: String,
    pub quantity: i64,
    pub price: i64,
    pub total: i64,
}

/// What the ledger refuses to do, and why.
#[derive(Clone, Copy, Debug, PartialEq, Eq)]
pub enum LedgerError {
    /// The company name has fewer characters than a customer code needs.
    NameTooShort,
    /// No customer is selected: the selection lies outside the customer list.
    NoCustomer,
    /// The next estimate number would not fit a `usize`.
    EstimateOverflow,
}

} // verus!
