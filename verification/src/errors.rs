//! Typed errors of the ledger and workflow operations.
//!
//! Uniqueness conflicts, business-rule violations and missing records each
//! get their own variant, so callers can translate them without parsing
//! messages. `NumericOverflow` reports that an exact bookkeeping value
//! would no longer fit the machine integers that hold it; the operation
//! that reports it leaves every record unchanged.

use vstd::prelude::*;

verus! {

/// One failure kind per rule, carrying no formatted text.
#[derive(Clone, Copy, Debug, PartialEq, Eq, Structural)]
pub enum Error {
    /// An item with the same SKU already exists for the tenant.
    DuplicateSku,
    /// A unit of measure with the same name already exists for the tenant.
    DuplicateUnitName,
    /// A unit of measure with the same symbol already exists for the tenant.
    DuplicateUnitSymbol,
    /// A category with the same name already exists for the tenant.
    DuplicateCategoryName,
    /// A composition edge may not point from an item to itself.
    SelfCompositionRejected,
    /// A sale asked for more than the unreserved quantity on hand.
    InsufficientStock,
    /// No catalog item with the given id exists for the tenant.
    ItemNotFound,
    /// No stock level exists for the given (item, location) pair.
    InventoryLevelNotFound,
    /// The tenant has no pipeline with the given id.
    PipelineNotFound,
    /// The pipeline has no stage, or the given stage id does not exist.
    StageNotFound,
    /// No order with the given id exists for the tenant.
    OrderNotFound,
    /// The finance collaborator refused to create the owed receivable.
    FinanceRejected,
    /// An exact amount would not fit the integers that store it.
    NumericOverflow,
}

} // verus!
