//! An invoice ledger: a grid of editable text cells projected onto typed
//! line items, a cache of row totals, customer codes, estimate sequencing
//! and the layout handed to the document renderer.
use vstd::prelude::*;

pub mod amount;
pub mod grid;
pub mod identity;
pub mod invoicy;
pub mod layout;
pub mod projector;
pub mod records;
pub mod text;
pub mod totals;

verus! {

} // verus!
