//! Core engine of a single-store point-of-sale backend.
//!
//! The `Store` type owns the whole state of the system: the product
//! catalog, the immutable sales history with its line items, the
//! key-value settings table and the user table.  Every operation on it
//! is verified: checkout is all-or-nothing, sale totals reconcile with
//! their line items, and the reports are proved to agree with the
//! recorded history.  Persistence and user interaction live outside
//! this crate; they exchange plain values with it.

use vstd::prelude::*;

pub mod auth;
pub mod inventory;
pub mod pos;
pub mod reports;
pub mod settings;
pub mod store;

verus! {

/// How an operation on the store can fail.
#[derive(Clone, Copy, Debug, PartialEq, Eq, Structural)]
pub enum StoreError {
    /// The target row of an update or delete does not exist.
    NotFound,
    /// The input was rejected before any state was touched
    /// (empty cart, zero quantity, unusable credential material).
    Validation,
    /// A computed value would leave the range the store can hold;
    /// the in-memory analogue of an underlying storage failure.
    Overflow,
}

} // verus!
