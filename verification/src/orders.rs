//! Orders, order lines and the workflow around them.
//!
//! An order points at its pipeline and current stage; its lines are
//! immutable price/cost snapshots taken when they are added. The cached
//! `total_amount` of every order always equals the sum of
//! `quantity * unit_price - discount` over its lines — the workflow
//! keeps that consistency as an invariant, so no intermediate
//! inconsistent total is ever observable.

use crate::errors::Error;
use crate::pipeline::{Pipeline, PipelineCategory, PipelineStage, StockAction};
use vstd::prelude::*;

verus! {

/// One order: the state-machine cursor (`stage_id`) of a workflow run,
/// with cached totals and opening/closing timestamps.
pub struct Order {
    pub id: u128,
    pub tenant_id: u128,
    pub customer_id: Option<u128>,
    pub pipeline_id: u128,
    pub stage_id: u128,
    pub display_id: u32,
    pub total_amount: i128,
    pub total_discount: u64,
    pub notes: Option<String>,
    pub opened_at: u64,
    pub closed_at: Option<u64>,
}

/// One order line: an immutable snapshot of price and cost at the time
/// it was added, deliberately decoupled from later catalog changes.
pub struct OrderItem {
    pub id: u128,
    pub tenant_id: u128,
    pub order_id: u128,
    pub item_id: u128,
    pub quantity: u64,
    pub unit_price: u64,
    pub unit_cost: u64,
    pub discount: u64,
    pub notes: Option<String>,
}

impl Clone for OrderItem {
    /// An exact copy.
    fn clone(&self) -> (res: Self)
        ensures
            res == *self,
    {
        let notes = self.notes.clone();
        proof {
            assert(notes == self.notes);
        }
        OrderItem {
            id: self.id,
            tenant_id: self.tenant_id,
            order_id: self.order_id,
            item_id: self.item_id,
            quantity: self.quantity,
            unit_price: self.unit_price,
            unit_cost: self.unit_cost,
            discount: self.discount,
            notes,
        }
    }
}

/// What one line contributes to the total of (tenant, order): its
/// amount if it belongs there, nothing otherwise.
pub open spec fn line_amount_if(l: OrderItem, tenant: u128, order: u128) -> int {
    if l.tenant_id == tenant && l.order_id == order {
        l.quantity * l.unit_price - l.discount
    } else {
        0
    }
}

/// The total amount of (tenant, order): the sum of
/// `quantity * unit_price - discount` over its lines.
pub open spec fn order_total(lines: Seq<OrderItem>, tenant: u128, order: u128) -> int
    decreases lines.len(),
{
    if lines.len() == 0 {
        0
    } else {
        order_total(lines.drop_last(), tenant, order) + line_amount_if(
            lines.last(),
            tenant,
            order,
        )
    }
}

/// An order nothing points at has total zero.
proof fn lemma_order_total_unreferenced(lines: Seq<OrderItem>, tenant: u128, order: u128)
    requires
        forall|i: int|
            0 <= i < lines.len() ==> !((#[trigger] lines[i]).tenant_id == tenant
                && lines[i].order_id == order),
    ensures
        order_total(lines, tenant, order) == 0,
    decreases lines.len(),
{
    if lines.len() > 0 {
        lemma_order_total_unreferenced(lines.drop_last(), tenant, order);
    }
}

/// The lines of one (tenant, order), in insertion order.
pub open spec fn order_lines(lines: Seq<OrderItem>, tenant: u128, order: u128) -> Seq<OrderItem> {
    lines.filter(|l: OrderItem| l.tenant_id == tenant && l.order_id == order)
}

/// The index of the first order with this (tenant, id), if any; under
/// `OrderWorkflow::wf` it is the only one.
pub open spec fn order_index(orders: Seq<Order>, tenant: u128, order: u128) -> Option<int>
    decreases orders.len(),
{
    if orders.len() == 0 {
        Option::None
    } else if orders[0].tenant_id == tenant && orders[0].id == order {
        Option::Some(0)
    } else {
        match order_index(orders.drop_first(), tenant, order) {
            Option::Some(i) => Option::Some(i + 1),
            Option::None => Option::None,
        }
    }
}

proof fn lemma_order_index_none(orders: Seq<Order>, tenant: u128, order: u128)
    requires
        forall|j: int|
            0 <= j < orders.len() ==> !((#[trigger] orders[j]).tenant_id == tenant
                && orders[j].id == order),
    ensures
        order_index(orders, tenant, order) is None,
    decreases orders.len(),
{
    if orders.len() > 0 {
        assert(forall|j: int|
            0 <= j < orders.drop_first().len() ==> #[trigger] orders.drop_first()[j] == orders[j
                + 1]);
        lemma_order_index_none(orders.drop_first(), tenant, order);
    }
}

proof fn lemma_order_index_found(orders: Seq<Order>, tenant: u128, order: u128, i: int)
    requires
        0 <= i < orders.len(),
        orders[i].tenant_id == tenant && orders[i].id == order,
        forall|j: int|
            0 <= j < i ==> !((#[trigger] orders[j]).tenant_id == tenant && orders[j].id == order),
    ensures
        order_index(orders, tenant, order) == Option::Some(i),
    decreases i,
{
    assert(forall|j: int|
        0 <= j < orders.drop_first().len() ==> #[trigger] orders.drop_first()[j] == orders[j + 1]);
    if i > 0 {
        lemma_order_index_found(orders.drop_first(), tenant, order, i - 1);
    }
}

/// The index of the first stage with this (tenant, id), if any.
pub open spec fn stage_index(stages: Seq<PipelineStage>, tenant: u128, stage: u128) -> Option<int>
    decreases stages.len(),
{
    if stages.len() == 0 {
        Option::None
    } else if stages[0].tenant_id == tenant && stages[0].id == stage {
        Option::Some(0)
    } else {
        match stage_index(stages.drop_first(), tenant, stage) {
            Option::Some(i) => Option::Some(i + 1),
            Option::None => Option::None,
        }
    }
}

pub(crate) proof fn lemma_stage_index_none(stages: Seq<PipelineStage>, tenant: u128, stage: u128)
    requires
        forall|j: int|
            0 <= j < stages.len() ==> !((#[trigger] stages[j]).tenant_id == tenant
                && stages[j].id == stage),
    ensures
        stage_index(stages, tenant, stage) is None,
    decreases stages.len(),
{
    if stages.len() > 0 {
        assert(forall|j: int|
            0 <= j < stages.drop_first().len() ==> #[trigger] stages.drop_first()[j] == stages[j
                + 1]);
        lemma_stage_index_none(stages.drop_first(), tenant, stage);
    }
}

pub(crate) proof fn lemma_stage_index_found(stages: Seq<PipelineStage>, tenant: u128, stage: u128, i: int)
    requires
        0 <= i < stages.len(),
        stages[i].tenant_id == tenant && stages[i].id == stage,
        forall|j: int|
            0 <= j < i ==> !((#[trigger] stages[j]).tenant_id == tenant && stages[j].id == stage),
    ensures
        stage_index(stages, tenant, stage) == Option::Some(i),
    decreases i,
{
    assert(forall|j: int|
        0 <= j < stages.drop_first().len() ==> #[trigger] stages.drop_first()[j] == stages[j + 1]);
    if i > 0 {
        lemma_stage_index_found(stages.drop_first(), tenant, stage, i - 1);
    }
}

/// The order workflow: pipeline and stage configuration, the orders and
/// their lines, and the id and display-number counters.
pub struct OrderWorkflow {
    pub pipelines: Vec<Pipeline>,
    pub stages: Vec<PipelineStage>,
    pub orders: Vec<Order>,
    pub lines: Vec<OrderItem>,
    /// The next record id to hand out; larger than every stored id.
    pub next_id: u128,
    /// The next order display number; display ids grow monotonically.
    pub next_display: u32,
}

impl OrderWorkflow {
    /// Well-formedness: fresh counters, orders unique by (tenant, id),
    /// and — the consistency invariant — every order's cached total
    /// equals the sum over its lines.
    pub open spec fn wf(self) -> bool {
        &&& forall|i: int|
            0 <= i < self.pipelines@.len() ==> (#[trigger] self.pipelines@[i]).id < self.next_id
        &&& forall|i: int|
            0 <= i < self.stages@.len() ==> (#[trigger] self.stages@[i]).id < self.next_id
        &&& forall|i: int|
            0 <= i < self.orders@.len() ==> (#[trigger] self.orders@[i]).id < self.next_id
        &&& forall|i: int|
            0 <= i < self.lines@.len() ==> (#[trigger] self.lines@[i]).id < self.next_id
                && self.lines@[i].order_id < self.next_id
        &&& forall|i: int, j: int|
            0 <= i < j < self.orders@.len() ==> !((#[trigger] self.orders@[i]).tenant_id == (
            #[trigger] self.orders@[j]).tenant_id && self.orders@[i].id == self.orders@[j].id)
        &&& forall|i: int|
            0 <= i < self.orders@.len() ==> (#[trigger] self.orders@[i]).total_amount
                == order_total(self.lines@, self.orders@[i].tenant_id, self.orders@[i].id)
    }

    /// An empty workflow.
    pub fn new() -> (r: OrderWorkflow)
        ensures
            r.wf(),
            r.pipelines@.len() == 0,
            r.stages@.len() == 0,
            r.orders@.len() == 0,
            r.lines@.len() == 0,
            r.next_id == 0,
            r.next_display == 0,
    {
        OrderWorkflow {
            pipelines: Vec::new(),
            stages: Vec::new(),
            orders: Vec::new(),
            lines: Vec::new(),
            next_id: 0,
            next_display: 0,
        }
    }

    /// Create a pipeline; fails only when the id counter is exhausted.
    pub fn create_pipeline(&mut self, tenant_id: u128, name: String, is_default: bool) -> (r:
        Result<u128, Error>)
        requires
            old(self).wf(),
        ensures
            final(self).wf(),
            match r {
                Ok(id) => {
                    &&& old(self).next_id < u128::MAX
                    &&& id == old(self).next_id
                    &&& final(self).pipelines@.len() == old(self).pipelines@.len() + 1
                    &&& final(self).pipelines@.drop_last() == old(self).pipelines@
                    &&& {
                        let p = final(self).pipelines@.last();
                        p.id == id && p.tenant_id == tenant_id && p.name@ == name@
                            && p.is_default == is_default
                    }
                    &&& final(self).next_id == old(self).next_id + 1
                    &&& final(self).stages@ == old(self).stages@
                    &&& final(self).orders@ == old(self).orders@
                    &&& final(self).lines@ == old(self).lines@
                    &&& final(self).next_display == old(self).next_display
                },
                Err(e) => {
                    &&& e == Error::NumericOverflow
                    &&& old(self).next_id == u128::MAX
                    &&& *final(self) == *old(self)
                },
            },
    {
        let id = match self.next_id.checked_add(1) {
            Some(next) => {
                let id = self.next_id;
                self.next_id = next;
                id
            },
            None => {
                return Err(Error::NumericOverflow);
            },
        };
        self.pipelines.push(Pipeline { id, tenant_id, name, is_default });
        Ok(id)
    }

    /// Append a stage to a pipeline of the tenant. Fails with
    /// `PipelineNotFound`, and no change, when the tenant has no such
    /// pipeline; succeeds on every other input unless the id counter is
    /// exhausted. A missing stock action means none.
    pub fn add_stage(
        &mut self,
        tenant_id: u128,
        pipeline_id: u128,
        name: String,
        category: PipelineCategory,
        position: i32,
        stock_action: Option<StockAction>,
        generates_receivable: bool,
    ) -> (r: Result<u128, Error>)
        requires
            old(self).wf(),
        ensures
            final(self).wf(),
            match r {
                Ok(id) => {
                    &&& exists|i: int|
                        0 <= i < old(self).pipelines@.len() && (
                        #[trigger] old(self).pipelines@[i]).tenant_id == tenant_id && old(
                            self,
                        ).pipelines@[i].id == pipeline_id
                    &&& old(self).next_id < u128::MAX
                    &&& id == old(self).next_id
                    &&& final(self).stages@.len() == old(self).stages@.len() + 1
                    &&& final(self).stages@.drop_last() == old(self).stages@
                    &&& {
                        let st = final(self).stages@.last();
                        &&& st.id == id
                        &&& st.tenant_id == tenant_id
                        &&& st.pipeline_id == pipeline_id
                        &&& st.name@ == name@
                        &&& st.category == category
                        &&& st.position == position
                        &&& st.stock_action == (match stock_action {
                            Option::Some(a) => a,
                            Option::None => StockAction::NoAction,
                        })
                        &&& st.generates_receivable == generates_receivable
                        &&& !st.is_locked
                    }
                    &&& final(self).next_id == old(self).next_id + 1
                    &&& final(self).pipelines@ == old(self).pipelines@
                    &&& final(self).orders@ == old(self).orders@
                    &&& final(self).lines@ == old(self).lines@
                },
                Err(Error::PipelineNotFound) => {
                    &&& forall|i: int|
                        0 <= i < old(self).pipelines@.len() ==> !((
                        #[trigger] old(self).pipelines@[i]).tenant_id == tenant_id && old(
                            self,
                        ).pipelines@[i].id == pipeline_id)
                    &&& *final(self) == *old(self)
                },
                Err(Error::NumericOverflow) => {
                    &&& old(self).next_id == u128::MAX
                    &&& *final(self) == *old(self)
                },
                _ => false,
            },
    {
        if !self.has_pipeline(tenant_id, pipeline_id) {
            return Err(Error::PipelineNotFound);
        }
        let id = match self.next_id.checked_add(1) {
            Some(next) => {
                let id = self.next_id;
                self.next_id = next;
                id
            },
            None => {
                return Err(Error::NumericOverflow);
            },
        };
        let action = match stock_action {
            Some(a) => a,
            None => StockAction::NoAction,
        };
        self.stages.push(
            PipelineStage {
                id,
                tenant_id,
                pipeline_id,
                name,
                category,
                position,
                stock_action: action,
                generates_receivable,
                is_locked: false,
            },
        );
        Ok(id)
    }

    /// Open an order in a pipeline: it lands in the entry state, the
    /// stage of the tenant's pipeline with the lowest position (the
    /// earliest such stage on a tie). Fails with `StageNotFound`, and no
    /// change, when the pipeline has no stage for the tenant; succeeds
    /// on every other input unless a counter is exhausted.
    pub fn create_order(
        &mut self,
        tenant_id: u128,
        customer_id: Option<u128>,
        pipeline_id: u128,
        notes: Option<String>,
        now: u64,
    ) -> (r: Result<u128, Error>)
        requires
            old(self).wf(),
        ensures
            final(self).wf(),
            match r {
                Ok(id) => {
                    &&& old(self).next_id < u128::MAX
                    &&& old(self).next_display < u32::MAX
                    &&& id == old(self).next_id
                    &&& final(self).orders@.len() == old(self).orders@.len() + 1
                    &&& final(self).orders@.drop_last() == old(self).orders@
                    &&& exists|k: int|
                        #![auto]
                        {
                            &&& 0 <= k < old(self).stages@.len()
                            &&& old(self).stages@[k].tenant_id == tenant_id
                            &&& old(self).stages@[k].pipeline_id == pipeline_id
                            &&& forall|j: int|
                                0 <= j < old(self).stages@.len() && (
                                #[trigger] old(self).stages@[j]).tenant_id == tenant_id && old(
                                    self,
                                ).stages@[j].pipeline_id == pipeline_id ==> old(
                                    self,
                                ).stages@[k].position <= old(self).stages@[j].position && (old(
                                    self,
                                ).stages@[k].position == old(self).stages@[j].position ==> k <= j)
                            &&& final(self).orders@.last().stage_id == old(self).stages@[k].id
                        }
                    &&& {
                        let o = final(self).orders@.last();
                        &&& o.id == id
                        &&& o.tenant_id == tenant_id
                        &&& o.customer_id == customer_id
                        &&& o.pipeline_id == pipeline_id
                        &&& o.display_id == old(self).next_display
                        &&& o.total_amount == 0
                        &&& o.total_discount == 0
                        &&& o.notes == notes
                        &&& o.opened_at == now
                        &&& o.closed_at is None
                    }
                    &&& final(self).next_id == old(self).next_id + 1
                    &&& final(self).next_display == old(self).next_display + 1
                    &&& final(self).pipelines@ == old(self).pipelines@
                    &&& final(self).stages@ == old(self).stages@
                    &&& final(self).lines@ == old(self).lines@
                },
                Err(Error::StageNotFound) => {
                    &&& forall|j: int|
                        0 <= j < old(self).stages@.len() ==> !((
                        #[trigger] old(self).stages@[j]).tenant_id == tenant_id && old(
                            self,
                        ).stages@[j].pipeline_id == pipeline_id)
                    &&& *final(self) == *old(self)
                },
                Err(Error::NumericOverflow) => {
                    &&& exists|j: int|
                        0 <= j < old(self).stages@.len() && (
                        #[trigger] old(self).stages@[j]).tenant_id == tenant_id && old(
                            self,
                        ).stages@[j].pipeline_id == pipeline_id
                    &&& (old(self).next_id == u128::MAX || old(self).next_display == u32::MAX)
                    &&& *final(self) == *old(self)
                },
                _ => false,
            },
    {
        let n = self.stages.len();
        let mut i: usize = 0;
        let mut best: Option<usize> = None;
        while i < n
            invariant
                *self == *old(self),
                old(self).wf(),
                n == self.stages@.len(),
                i <= n,
                match best {
                    Option::Some(k) => {
                        &&& k < i
                        &&& (#[trigger] self.stages@[k as int]).tenant_id == tenant_id
                        &&& self.stages@[k as int].pipeline_id == pipeline_id
                        &&& forall|j: int|
                            0 <= j < i && (#[trigger] self.stages@[j]).tenant_id == tenant_id
                                && self.stages@[j].pipeline_id == pipeline_id ==> self.stages@[
                            k as int].position <= self.stages@[j].position && (self.stages@[
                            k as int].position == self.stages@[j].position ==> k <= j)
                    },
                    Option::None => forall|j: int|
                        0 <= j < i ==> !((#[trigger] self.stages@[j]).tenant_id == tenant_id
                            && self.stages@[j].pipeline_id == pipeline_id),
                },
            decreases n - i,
        {
            if self.stages[i].tenant_id == tenant_id && self.stages[i].pipeline_id == pipeline_id {
                match best {
                    Some(k) => {
                        if self.stages[i].position < self.stages[k].position {
                            best = Some(i);
                        }
                    },
                    None => {
                        best = Some(i);
                    },
                }
            }
            i += 1;
        }
        let entry = match best {
            Some(k) => k,
            None => {
                return Err(Error::StageNotFound);
            },
        };
        if self.next_id == u128::MAX || self.next_display == u32::MAX {
            return Err(Error::NumericOverflow);
        }
        let id = self.next_id;
        self.next_id = self.next_id + 1;
        let display_id = self.next_display;
        self.next_display = self.next_display + 1;
        let stage_id = self.stages[entry].id;
        let o = Order {
            id,
            tenant_id,
            customer_id,
            pipeline_id,
            stage_id,
            display_id,
            total_amount: 0,
            total_discount: 0,
            notes,
            opened_at: now,
            closed_at: None,
        };
        let ghost old_orders = self.orders@;
        self.orders.push(o);
        proof {
            lemma_order_total_unreferenced(self.lines@, tenant_id, id);
            assert(self.orders@.drop_last() =~= old_orders);
        }
        Ok(id)
    }

    /// The tenant's order with the given id, if it exists.
    pub fn get_order(&self, tenant_id: u128, order_id: u128) -> (r: Option<&Order>)
        ensures
            match r {
                Option::Some(o) => {
                    &&& order_index(self.orders@, tenant_id, order_id) is Some
                    &&& *o == self.orders@[order_index(self.orders@, tenant_id, order_id)->Some_0]
                },
                Option::None => order_index(self.orders@, tenant_id, order_id) is None,
            },
    {
        let n = self.orders.len();
        let mut i: usize = 0;
        while i < n
            invariant
                n == self.orders@.len(),
                i <= n,
                forall|j: int|
                    0 <= j < i ==> !((#[trigger] self.orders@[j]).tenant_id == tenant_id
                        && self.orders@[j].id == order_id),
            decreases n - i,
        {
            if self.orders[i].tenant_id == tenant_id && self.orders[i].id == order_id {
                proof {
                    lemma_order_index_found(self.orders@, tenant_id, order_id, i as int);
                }
                return Some(&self.orders[i]);
            }
            i += 1;
        }
        proof {
            lemma_order_index_none(self.orders@, tenant_id, order_id);
        }
        None
    }

    /// Add a snapshot line to an order and recompute the cached total,
    /// both together. Fails with `OrderNotFound`, and no change, when
    /// the tenant has no such order, and with `NumericOverflow`, and no
    /// change, exactly when the line amount or the new total leaves the
    /// `i128` range or the id counter is exhausted.
    pub fn add_item_to_order(
        &mut self,
        tenant_id: u128,
        order_id: u128,
        item_id: u128,
        quantity: u64,
        unit_price: u64,
        unit_cost: u64,
    ) -> (r: Result<u128, Error>)
        requires
            old(self).wf(),
        ensures
            final(self).wf(),
            match r {
                Ok(id) => {
                    &&& order_index(old(self).orders@, tenant_id, order_id) is Some
                    &&& old(self).next_id < u128::MAX
                    &&& id == old(self).next_id
                    &&& final(self).lines@.len() == old(self).lines@.len() + 1
                    &&& final(self).lines@.drop_last() == old(self).lines@
                    &&& {
                        let l = final(self).lines@.last();
                        &&& l.id == id
                        &&& l.tenant_id == tenant_id
                        &&& l.order_id == order_id
                        &&& l.item_id == item_id
                        &&& l.quantity == quantity
                        &&& l.unit_price == unit_price
                        &&& l.unit_cost == unit_cost
                        &&& l.discount == 0
                        &&& l.notes is None
                    }
                    &&& {
                        let j = order_index(old(self).orders@, tenant_id, order_id)->Some_0;
                        &&& final(self).orders@.len() == old(self).orders@.len()
                        &&& forall|k: int|
                            0 <= k < old(self).orders@.len() && k != j ==> final(self).orders@[k]
                                == old(self).orders@[k]
                        &&& final(self).orders@[j] == (Order {
                            total_amount: (old(self).orders@[j].total_amount + quantity
                                * unit_price) as i128,
                            ..old(self).orders@[j]
                        })
                        &&& final(self).orders@[j].total_amount == order_total(
                            final(self).lines@,
                            tenant_id,
                            order_id,
                        )
                    }
                    &&& final(self).next_id == old(self).next_id + 1
                    &&& final(self).pipelines@ == old(self).pipelines@
                    &&& final(self).stages@ == old(self).stages@
                    &&& final(self).next_display == old(self).next_display
                },
                Err(Error::OrderNotFound) => {
                    &&& order_index(old(self).orders@, tenant_id, order_id) is None
                    &&& *final(self) == *old(self)
                },
                Err(Error::NumericOverflow) => {
                    &&& order_index(old(self).orders@, tenant_id, order_id) is Some
                    &&& {
                        let j = order_index(old(self).orders@, tenant_id, order_id)->Some_0;
                        ||| old(self).next_id == u128::MAX
                        ||| quantity * unit_price > i128::MAX
                        ||| old(self).orders@[j].total_amount + quantity * unit_price > i128::MAX
                    }
                    &&& *final(self) == *old(self)
                },
                _ => false,
            },
    {
        let j = match self.find_order(tenant_id, order_id) {
            Some(j) => j,
            None => {
                return Err(Error::OrderNotFound);
            },
        };
        if self.next_id == u128::MAX {
            return Err(Error::NumericOverflow);
        }
        proof {
            assert((quantity as int) * (unit_price as int) <= u128::MAX) by (nonlinear_arith)
                requires
                    0 <= quantity <= u64::MAX,
                    0 <= unit_price <= u64::MAX,
            ;
        }
        let amount_u: u128 = (quantity as u128) * (unit_price as u128);
        if amount_u > (i128::MAX as u128) {
            return Err(Error::NumericOverflow);
        }
        let amount: i128 = amount_u as i128;
        let total = self.orders[j].total_amount;
        let new_total = match total.checked_add(amount) {
            Some(t) => t,
            None => {
                proof {
                    assert(total + quantity * unit_price > i128::MAX) by (nonlinear_arith)
                        requires
                            total + amount > i128::MAX || total + amount < i128::MIN,
                            amount == quantity * unit_price,
                            0 <= amount,
                            i128::MIN <= total <= i128::MAX,
                    ;
                }
                return Err(Error::NumericOverflow);
            },
        };
        let id = self.next_id;
        self.next_id = self.next_id + 1;
        let line = OrderItem {
            id,
            tenant_id,
            order_id,
            item_id,
            quantity,
            unit_price,
            unit_cost,
            discount: 0,
            notes: None,
        };
        let ghost old_lines = self.lines@;
        let ghost old_orders = self.orders@;
        self.lines.push(line);
        let o = self.orders.remove(j);
        let updated = Order {
            id: o.id,
            tenant_id: o.tenant_id,
            customer_id: o.customer_id,
            pipeline_id: o.pipeline_id,
            stage_id: o.stage_id,
            display_id: o.display_id,
            total_amount: new_total,
            total_discount: o.total_discount,
            notes: o.notes,
            opened_at: o.opened_at,
            closed_at: o.closed_at,
        };
        self.orders.insert(j, updated);
        proof {
            assert(self.lines@.drop_last() =~= old_lines);
            assert(self.orders@ =~= old_orders.update(j as int, updated));
            assert(updated == (Order { total_amount: new_total, ..old_orders[j as int] }));
            // The new line lands at the back, so every order's total
            // gains exactly that line's contribution.
            assert forall|k: int|
                0 <= k < self.orders@.len() implies (#[trigger] self.orders@[k]).total_amount
                == order_total(self.lines@, self.orders@[k].tenant_id, self.orders@[k].id) by {
                assert(old_orders[k].total_amount == order_total(
                    old_lines,
                    old_orders[k].tenant_id,
                    old_orders[k].id,
                ));
                assert(order_total(self.lines@, old_orders[k].tenant_id, old_orders[k].id)
                    == order_total(old_lines, old_orders[k].tenant_id, old_orders[k].id)
                    + line_amount_if(line, old_orders[k].tenant_id, old_orders[k].id));
                if k != j {
                    assert(!(old_orders[k].tenant_id == tenant_id && old_orders[k].id
                        == order_id));
                }
            }
        }
        Ok(id)
    }

    /// Does the tenant have a pipeline with this id?
    pub fn has_pipeline(&self, tenant_id: u128, pipeline_id: u128) -> (r: bool)
        ensures
            r == exists|i: int|
                0 <= i < self.pipelines@.len() && (#[trigger] self.pipelines@[i]).tenant_id
                    == tenant_id && self.pipelines@[i].id == pipeline_id,
    {
        let n = self.pipelines.len();
        let mut i: usize = 0;
        while i < n
            invariant
                n == self.pipelines@.len(),
                i <= n,
                forall|k: int|
                    0 <= k < i ==> !((#[trigger] self.pipelines@[k]).tenant_id == tenant_id
                        && self.pipelines@[k].id == pipeline_id),
            decreases n - i,
        {
            if self.pipelines[i].tenant_id == tenant_id && self.pipelines[i].id == pipeline_id {
                return true;
            }
            i += 1;
        }
        false
    }

    /// The index of the order for (tenant, id), if any.
    pub(crate) fn find_order(&self, tenant_id: u128, order_id: u128) -> (r: Option<usize>)
        ensures
            match r {
                Option::Some(j) => {
                    &&& j < self.orders@.len()
                    &&& self.orders@[j as int].tenant_id == tenant_id
                    &&& self.orders@[j as int].id == order_id
                    &&& order_index(self.orders@, tenant_id, order_id) == Option::Some(j as int)
                },
                Option::None => order_index(self.orders@, tenant_id, order_id) is None,
            },
    {
        let n = self.orders.len();
        let mut i: usize = 0;
        while i < n
            invariant
                n == self.orders@.len(),
                i <= n,
                forall|j: int|
                    0 <= j < i ==> !((#[trigger] self.orders@[j]).tenant_id == tenant_id
                        && self.orders@[j].id == order_id),
            decreases n - i,
        {
            if self.orders[i].tenant_id == tenant_id && self.orders[i].id == order_id {
                proof {
                    lemma_order_index_found(self.orders@, tenant_id, order_id, i as int);
                }
                return Some(i);
            }
            i += 1;
        }
        proof {
            lemma_order_index_none(self.orders@, tenant_id, order_id);
        }
        None
    }
}

} // verus!
