//! Workflow configuration: pipelines and their stages.
//!
//! A pipeline is a named, ordered workflow; each stage carries a
//! category (Draft, Active, Done or Cancelled), an integer position —
//! the stage with the lowest position is the entry state of new orders —
//! an optional stock action fired on transition into it, and a flag
//! that makes the transition emit a receivable. Nothing restricts which
//! stage may follow which: the transition graph is deliberately
//! unrestricted.

use vstd::prelude::*;

verus! {

/// The broad phase a stage belongs to. Done and Cancelled are terminal
/// by convention only.
#[derive(Clone, Copy, Debug, PartialEq, Eq, Structural)]
pub enum PipelineCategory {
    Draft,
    Active,
    Done,
    Cancelled,
}

/// What entering a stage does to stock.
#[derive(Clone, Copy, Debug, PartialEq, Eq, Structural)]
pub enum StockAction {
    /// Nothing happens to stock.
    NoAction,
    /// Stock is reserved (not deducted).
    Reserve,
    /// Stock is deducted from the fulfillment location.
    Deduct,
}

/// A named workflow of one tenant.
pub struct Pipeline {
    pub id: u128,
    pub tenant_id: u128,
    pub name: String,
    pub is_default: bool,
}

/// One step of a pipeline.
pub struct PipelineStage {
    pub id: u128,
    pub tenant_id: u128,
    pub pipeline_id: u128,
    pub name: String,
    pub category: PipelineCategory,
    pub position: i32,
    pub stock_action: StockAction,
    pub generates_receivable: bool,
    pub is_locked: bool,
}

/// Entering a stage of this category closes the order.
pub open spec fn closes_order(category: PipelineCategory) -> bool {
    category == PipelineCategory::Done || category == PipelineCategory::Cancelled
}

/// Read a stock action from its wire label: "NONE", "RESERVE" or
/// "DEDUCT"; anything else is refused.
pub fn parse_stock_action(label: &String) -> (r: Option<StockAction>)
    ensures
        r == Option::Some(StockAction::NoAction) <==> label@ == "NONE"@,
        r == Option::Some(StockAction::Reserve) <==> label@ == "RESERVE"@,
        r == Option::Some(StockAction::Deduct) <==> label@ == "DEDUCT"@,
        r is None <==> (label@ != "NONE"@ && label@ != "RESERVE"@ && label@ != "DEDUCT"@),
{
    proof {
        reveal_strlit("NONE");
        reveal_strlit("RESERVE");
        reveal_strlit("DEDUCT");
        assert("NONE"@.len() == 4 && "RESERVE"@.len() == 7 && "DEDUCT"@.len() == 6);
        assert("NONE"@ != "RESERVE"@ && "NONE"@ != "DEDUCT"@ && "RESERVE"@ != "DEDUCT"@);
    }
    if *label == "NONE".to_owned() {
        Some(StockAction::NoAction)
    } else if *label == "RESERVE".to_owned() {
        Some(StockAction::Reserve)
    } else if *label == "DEDUCT".to_owned() {
        Some(StockAction::Deduct)
    } else {
        None
    }
}

} // verus!
