//! Inventory ledger and order-pipeline transition engine.
//!
//! The crate tracks physical stock with lot-level batches, computes the
//! moving weighted-average cost of each stock level, consumes batches in
//! FIFO order on sales, and orchestrates the all-or-nothing stage
//! transitions of orders (stock deduction, receivable generation, order
//! closing). Quantities are plain integers, money amounts are integer
//! minor units (cents), and average costs are exact rationals, so every
//! bookkeeping rule is stated and proved exactly.

use vstd::prelude::*;

pub mod catalog;
pub mod errors;
pub mod fifo;
pub mod finance;
pub mod jsonval;
pub mod ledger;
pub mod orders;
pub mod pipeline;
pub mod ratio;
pub mod requests;
pub mod transition;

verus! {

} // verus!
