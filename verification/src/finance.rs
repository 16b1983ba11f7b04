//! The narrow interface to the finance collaborator.
//!
//! When an order enters a stage that generates a receivable and its
//! total is positive, the workflow owes the finance side one receivable
//! title for that total, due on the day of the transition. The
//! collaborator itself lives outside this crate; the workflow consumes
//! its answer and hands back the exact title that was owed.

use vstd::prelude::*;

verus! {

/// Whether a financial title is owed to or by the tenant.
#[derive(Clone, Copy, Debug, PartialEq, Eq, Structural)]
pub enum TitleKind {
    Receivable,
    Payable,
}

/// The settlement state of a financial title.
#[derive(Clone, Copy, Debug, PartialEq, Eq, Structural)]
pub enum TitleStatus {
    Pending,
    Partial,
    Paid,
    Cancelled,
    Overdue,
}

/// The receivable title an order transition emits: pending, due on the
/// day of the transition, for the order's full total.
#[derive(Clone, Copy, Debug, PartialEq, Eq, Structural)]
pub struct ReceivableCharge {
    pub title_id: u128,
    pub tenant_id: u128,
    pub order_id: u128,
    pub display_id: u32,
    pub kind: TitleKind,
    pub status: TitleStatus,
    pub amount: i128,
    pub due_date: u64,
    pub customer_id: Option<u128>,
}

/// What the finance collaborator answered when asked to create a
/// receivable: the new title's id, or a refusal.
#[derive(Clone, Copy, Debug, PartialEq, Eq, Structural)]
pub enum FinanceReply {
    Granted(u128),
    Refused,
}

/// What one stage transition did: whether stock was deducted, and the
/// receivable title it emitted, if the stage owed one.
#[derive(Clone, Copy, Debug, PartialEq, Eq, Structural)]
pub struct TransitionOutcome {
    pub deducted: bool,
    pub receivable: Option<ReceivableCharge>,
}

/// Build the receivable title owed for an order: a pending receivable
/// of the full amount, due today.
pub fn create_receivable_for_order(
    title_id: u128,
    tenant_id: u128,
    order_id: u128,
    display_id: u32,
    amount: i128,
    customer_id: Option<u128>,
    today: u64,
) -> (r: ReceivableCharge)
    ensures
        r == (ReceivableCharge {
            title_id,
            tenant_id,
            order_id,
            display_id,
            kind: TitleKind::Receivable,
            status: TitleStatus::Pending,
            amount,
            due_date: today,
            customer_id,
        }),
{
    ReceivableCharge {
        title_id,
        tenant_id,
        order_id,
        display_id,
        kind: TitleKind::Receivable,
        status: TitleStatus::Pending,
        amount,
        due_date: today,
        customer_id,
    }
}

} // verus!
