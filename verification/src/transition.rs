//! The order-transition engine.
//!
//! Moving an order to a new stage is one atomic step: if the stage
//! deducts stock, every line of the order is sold from the fulfillment
//! location; if the stage generates a receivable and the order's total
//! is positive, the finance collaborator must have granted the owed
//! title; finally the order's stage moves and its closing timestamp is
//! set when the stage's category closes it. If any part fails — a
//! missing level, insufficient stock, a broken machine bound, or a
//! refused receivable — the whole transition fails and neither the
//! workflow nor the ledger changes in any way.

use crate::errors::Error;
use crate::fifo::InventoryBatch;
use crate::finance::{FinanceReply, ReceivableCharge, TitleKind, TitleStatus, TransitionOutcome};
use crate::ledger::{
    entry_index, movement_matches, InventoryLedger, InventoryLevel, LedgerEntry,
    StockMovementReason,
};
use crate::orders::{order_index, order_lines, stage_index, Order, OrderItem, OrderWorkflow};
use crate::pipeline::{closes_order, PipelineStage, StockAction};
use vstd::prelude::*;

verus! {

/// The lines of the order that hit one ledger entry: those naming its
/// item, when the entry belongs to the tenant at the fulfillment
/// location.
pub open spec fn entry_hits(
    e: LedgerEntry,
    tenant: u128,
    location: u128,
    olines: Seq<OrderItem>,
) -> Seq<OrderItem> {
    if e.tenant_id == tenant && e.location_id == location {
        olines.filter(|l: OrderItem| l.item_id == e.item_id)
    } else {
        Seq::<OrderItem>::empty()
    }
}

/// The total quantity the lines ask for.
pub open spec fn total_line_qty(hs: Seq<OrderItem>) -> int
    decreases hs.len(),
{
    if hs.len() == 0 {
        0
    } else {
        total_line_qty(hs.drop_last()) + hs.last().quantity
    }
}

/// The batches after FIFO consumption of each line's quantity, in line
/// order.
pub open spec fn batches_consumed(b: Seq<InventoryBatch>, hs: Seq<OrderItem>) -> Seq<
    InventoryBatch,
>
    decreases hs.len(),
{
    if hs.len() == 0 {
        b
    } else {
        crate::fifo::consume_result(batches_consumed(b, hs.drop_last()), hs.last().quantity as int)
    }
}

/// How one ledger entry ends up after the deductions of its hits: the
/// level falls by their total, the batches are FIFO-consumed line by
/// line, and one Sale movement per hit is appended in line order.
pub open spec fn entry_after_deductions(
    eo: LedgerEntry,
    en: LedgerEntry,
    hs: Seq<OrderItem>,
    now: u64,
) -> bool {
    &&& en.tenant_id == eo.tenant_id
    &&& en.item_id == eo.item_id
    &&& en.location_id == eo.location_id
    &&& en.level.quantity == eo.level.quantity - total_line_qty(hs)
    &&& en.level.reserved_quantity == eo.level.reserved_quantity
    &&& en.level.average_cost == eo.level.average_cost
    &&& en.level.sale_price == eo.level.sale_price
    &&& en.level.low_stock_threshold == eo.level.low_stock_threshold
    &&& en.batches@ == batches_consumed(eo.batches@, hs)
    &&& en.movements@.len() == eo.movements@.len() + hs.len()
    &&& en.movements@.subrange(0, eo.movements@.len() as int) == eo.movements@
    &&& forall|h: int|
        0 <= h < hs.len() ==> movement_matches(
            en.movements@[eo.movements@.len() + h],
            -((#[trigger] hs[h]).quantity as int),
            StockMovementReason::Sale,
            Option::None,
            Option::Some(hs[h].unit_price),
            Option::None,
            "Vários/FIFO"@,
            now,
        )
}

/// The first failure that deducting these lines in order would hit, if
/// any: a missing level, unreserved stock short of a line, or a line
/// quantity beyond the machine range.
pub open spec fn deduct_error(
    entries: Seq<LedgerEntry>,
    tenant: u128,
    location: u128,
    ls: Seq<OrderItem>,
) -> Option<Error>
    decreases ls.len(),
{
    if ls.len() == 0 {
        Option::None
    } else {
        let l = ls[0];
        match entry_index(entries, tenant, l.item_id, location) {
            Option::None => Option::Some(Error::InventoryLevelNotFound),
            Option::Some(j) => {
                let e = entries[j];
                if e.level.quantity - e.level.reserved_quantity < l.quantity {
                    Option::Some(Error::InsufficientStock)
                } else if l.quantity > i64::MAX {
                    Option::Some(Error::NumericOverflow)
                } else {
                    deduct_error(
                        entries.update(
                            j,
                            LedgerEntry {
                                level: InventoryLevel {
                                    quantity: (e.level.quantity - l.quantity) as i64,
                                    ..e.level
                                },
                                ..e
                            },
                        ),
                        tenant,
                        location,
                        ls.drop_first(),
                    )
                }
            },
        }
    }
}

/// Two entry sequences agree on everything a sale's feasibility reads:
/// their keys, quantities and reserved quantities.
pub open spec fn same_sale_view(a: Seq<LedgerEntry>, b: Seq<LedgerEntry>) -> bool {
    &&& a.len() == b.len()
    &&& forall|k: int|
        0 <= k < a.len() ==> {
            &&& (#[trigger] a[k]).tenant_id == (#[trigger] b[k]).tenant_id
            &&& a[k].item_id == b[k].item_id
            &&& a[k].location_id == b[k].location_id
            &&& a[k].level.quantity == b[k].level.quantity
            &&& a[k].level.reserved_quantity == b[k].level.reserved_quantity
        }
}

proof fn lemma_entry_index_same_sale_view(
    a: Seq<LedgerEntry>,
    b: Seq<LedgerEntry>,
    tenant: u128,
    item: u128,
    location: u128,
)
    requires
        same_sale_view(a, b),
    ensures
        entry_index(a, tenant, item, location) == entry_index(b, tenant, item, location),
    decreases a.len(),
{
    if a.len() > 0 {
        assert(forall|j: int|
            0 <= j < a.drop_first().len() ==> #[trigger] a.drop_first()[j] == a[j + 1]);
        assert(forall|j: int|
            0 <= j < b.drop_first().len() ==> #[trigger] b.drop_first()[j] == b[j + 1]);
        lemma_entry_index_same_sale_view(a.drop_first(), b.drop_first(), tenant, item, location);
    }
}

proof fn lemma_deduct_error_same_sale_view(
    a: Seq<LedgerEntry>,
    b: Seq<LedgerEntry>,
    tenant: u128,
    location: u128,
    ls: Seq<OrderItem>,
)
    requires
        same_sale_view(a, b),
    ensures
        deduct_error(a, tenant, location, ls) == deduct_error(b, tenant, location, ls),
    decreases ls.len(),
{
    if ls.len() > 0 {
        let l = ls[0];
        lemma_entry_index_same_sale_view(a, b, tenant, l.item_id, location);
        crate::ledger::lemma_entry_index_props(a, tenant, l.item_id, location);
        match entry_index(a, tenant, l.item_id, location) {
            Option::None => {},
            Option::Some(j) => {
                let ea = a[j];
                let eb = b[j];
                if !(ea.level.quantity - ea.level.reserved_quantity < l.quantity) && !(l.quantity
                    > i64::MAX) {
                    let a2 = a.update(
                        j,
                        LedgerEntry {
                            level: InventoryLevel {
                                quantity: (ea.level.quantity - l.quantity) as i64,
                                ..ea.level
                            },
                            ..ea
                        },
                    );
                    let b2 = b.update(
                        j,
                        LedgerEntry {
                            level: InventoryLevel {
                                quantity: (eb.level.quantity - l.quantity) as i64,
                                ..eb.level
                            },
                            ..eb
                        },
                    );
                    assert forall|k: int| 0 <= k < a2.len() implies {
                        &&& (#[trigger] a2[k]).tenant_id == (#[trigger] b2[k]).tenant_id
                        &&& a2[k].item_id == b2[k].item_id
                        &&& a2[k].location_id == b2[k].location_id
                        &&& a2[k].level.quantity == b2[k].level.quantity
                        &&& a2[k].level.reserved_quantity == b2[k].level.reserved_quantity
                    } by {
                        if k != j {
                            assert(a2[k] == a[k]);
                            assert(b2[k] == b[k]);
                        }
                    }
                    assert(same_sale_view(a2, b2));
                    lemma_deduct_error_same_sale_view(a2, b2, tenant, location, ls.drop_first());
                }
            },
        }
    }
}

/// Some simulation row carries this entry index.
pub open spec fn sim_has(sim: Seq<(usize, i64)>, k: int) -> bool {
    exists|s: int| 0 <= s < sim.len() && (#[trigger] sim[s]).0 == k
}

/// The simulation row for one entry index, if any.
fn sim_find(sim: &Vec<(usize, i64)>, j: usize) -> (r: Option<usize>)
    ensures
        match r {
            Option::Some(s) => s < sim@.len() && sim@[s as int].0 == j,
            Option::None => !sim_has(sim@, j as int),
        },
{
    let n = sim.len();
    let mut i: usize = 0;
    while i < n
        invariant
            n == sim@.len(),
            i <= n,
            forall|s: int| 0 <= s < i ==> (#[trigger] sim@[s]).0 != j,
        decreases n - i,
    {
        if sim[i].0 == j {
            return Some(i);
        }
        i += 1;
    }
    None
}

impl OrderWorkflow {
    /// The index of the stage for (tenant, id), if any.
    pub(crate) fn find_stage(&self, tenant_id: u128, new_stage_id: u128) -> (r: Option<usize>)
        ensures
            match r {
                Option::Some(j) => {
                    &&& j < self.stages@.len()
                    &&& self.stages@[j as int].tenant_id == tenant_id
                    &&& self.stages@[j as int].id == new_stage_id
                    &&& stage_index(self.stages@, tenant_id, new_stage_id) == Option::Some(j as int)
                },
                Option::None => stage_index(self.stages@, tenant_id, new_stage_id) is None,
            },
    {
        let n = self.stages.len();
        let mut i: usize = 0;
        while i < n
            invariant
                n == self.stages@.len(),
                i <= n,
                forall|j: int|
                    0 <= j < i ==> !((#[trigger] self.stages@[j]).tenant_id == tenant_id
                        && self.stages@[j].id == new_stage_id),
            decreases n - i,
        {
            if self.stages[i].tenant_id == tenant_id && self.stages[i].id == new_stage_id {
                proof {
                    crate::orders::lemma_stage_index_found(
                        self.stages@,
                        tenant_id,
                        new_stage_id,
                        i as int,
                    );
                }
                return Some(i);
            }
            i += 1;
        }
        proof {
            crate::orders::lemma_stage_index_none(self.stages@, tenant_id, new_stage_id);
        }
        None
    }

    /// The lines of one order, in insertion order.
    pub fn list_order_items(&self, tenant_id: u128, order_id: u128) -> (r: Vec<OrderItem>)
        ensures
            r@ == order_lines(self.lines@, tenant_id, order_id),
    {
        let n = self.lines.len();
        let mut out: Vec<OrderItem> = Vec::new();
        let mut i: usize = 0;
        proof {
            assert(self.lines@.subrange(0, 0) =~= Seq::<OrderItem>::empty());
            reveal(Seq::filter);
        }
        while i < n
            invariant
                n == self.lines@.len(),
                i <= n,
                out@ == order_lines(self.lines@.subrange(0, i as int), tenant_id, order_id),
            decreases n - i,
        {
            proof {
                reveal(Seq::filter);
                let pre = self.lines@.subrange(0, i as int);
                let nxt = self.lines@.subrange(0, i as int + 1);
                assert(nxt.drop_last() =~= pre);
                assert(nxt.last() == self.lines@[i as int]);
            }
            if self.lines[i].tenant_id == tenant_id && self.lines[i].order_id == order_id {
                let l = self.lines[i].clone();
                proof {
                    assert(l == self.lines@[i as int]);
                }
                out.push(l);
            }
            i += 1;
        }
        proof {
            assert(self.lines@.subrange(0, n as int) =~= self.lines@);
        }
        out
    }
}

/// Two entry sequences carry the same keys at the same places.
pub open spec fn same_keys(a: Seq<LedgerEntry>, b: Seq<LedgerEntry>) -> bool {
    &&& a.len() == b.len()
    &&& forall|k: int|
        0 <= k < a.len() ==> {
            &&& (#[trigger] a[k]).tenant_id == (#[trigger] b[k]).tenant_id
            &&& a[k].item_id == b[k].item_id
            &&& a[k].location_id == b[k].location_id
        }
}

proof fn lemma_entry_index_same_keys(
    a: Seq<LedgerEntry>,
    b: Seq<LedgerEntry>,
    tenant: u128,
    item: u128,
    location: u128,
)
    requires
        same_keys(a, b),
    ensures
        entry_index(a, tenant, item, location) == entry_index(b, tenant, item, location),
    decreases a.len(),
{
    if a.len() > 0 {
        assert(forall|j: int|
            0 <= j < a.drop_first().len() ==> #[trigger] a.drop_first()[j] == a[j + 1]);
        assert(forall|j: int|
            0 <= j < b.drop_first().len() ==> #[trigger] b.drop_first()[j] == b[j + 1]);
        lemma_entry_index_same_keys(a.drop_first(), b.drop_first(), tenant, item, location);
    }
}

/// The first failure that deducting these lines would hit, without
/// changing anything: exactly `deduct_error` of the current entries.
pub fn check_order_deduction(
    ledger: &InventoryLedger,
    tenant_id: u128,
    location_id: u128,
    olines: &Vec<OrderItem>,
) -> (r: Option<Error>)
    requires
        ledger.wf(),
    ensures
        r == deduct_error(ledger.entries@, tenant_id, location_id, olines@),
{
    let m = olines.len();
    let ghost orig = ledger.entries@;
    let ghost mut cur: Seq<LedgerEntry> = ledger.entries@;
    let mut sim: Vec<(usize, i64)> = Vec::new();
    let mut i: usize = 0;
    proof {
        assert(olines@.subrange(0, m as int) =~= olines@);
    }
    // Walk the lines against simulated quantities; nothing is written.
    while i < m
        invariant
            ledger.wf(),
            orig == ledger.entries@,
            m == olines@.len(),
            i <= m,
            cur.len() == orig.len(),
            forall|k: int|
                0 <= k < cur.len() ==> #[trigger] cur[k] == (LedgerEntry {
                    level: InventoryLevel { quantity: cur[k].level.quantity, ..orig[k].level },
                    ..orig[k]
                }),
            forall|s: int|
                0 <= s < sim@.len() ==> (#[trigger] sim@[s]).0 < cur.len() && cur[sim@[s].0 as int].level.quantity
                    == sim@[s].1,
            forall|s1: int, s2: int|
                0 <= s1 < s2 < sim@.len() ==> (#[trigger] sim@[s1]).0 != (#[trigger] sim@[s2]).0,
            forall|k: int|
                0 <= k < cur.len() && !sim_has(sim@, k) ==> (#[trigger] cur[k]).level.quantity
                    == orig[k].level.quantity,
            deduct_error(orig, tenant_id, location_id, olines@) == deduct_error(
                cur,
                tenant_id,
                location_id,
                olines@.subrange(i as int, m as int),
            ),
        decreases m - i,
    {
        let ghost rem = olines@.subrange(i as int, m as int);
        proof {
            assert(rem[0] == olines@[i as int]);
            assert(rem.drop_first() =~= olines@.subrange(i as int + 1, m as int));
            assert(same_keys(cur, orig));
        }
        let l_item = olines[i].item_id;
        let l_qty = olines[i].quantity;
        let jopt = ledger.find_entry(tenant_id, l_item, location_id);
        proof {
            lemma_entry_index_same_keys(cur, orig, tenant_id, l_item, location_id);
        }
        let j = match jopt {
            Some(j) => j,
            None => {
                return Some(Error::InventoryLevelNotFound);
            },
        };
        let reserved = ledger.entries[j].level.reserved_quantity;
        let sopt = sim_find(&sim, j);
        let q: i64 = match sopt {
            Some(s) => sim[s].1,
            None => ledger.entries[j].level.quantity,
        };
        proof {
            assert(q == cur[j as int].level.quantity);
            assert(cur[j as int].level.reserved_quantity == reserved);
        }
        if (q as i128) - (reserved as i128) < (l_qty as i128) {
            return Some(Error::InsufficientStock);
        }
        if l_qty > (i64::MAX as u64) {
            return Some(Error::NumericOverflow);
        }
        let q2: i64 = q - (l_qty as i64);
        let ghost cur_old = cur;
        proof {
            cur = cur.update(
                j as int,
                LedgerEntry {
                    level: InventoryLevel { quantity: q2, ..cur_old[j as int].level },
                    ..cur_old[j as int]
                },
            );
            assert(deduct_error(cur_old, tenant_id, location_id, rem) == deduct_error(
                cur,
                tenant_id,
                location_id,
                rem.drop_first(),
            ));
            assert forall|k: int| 0 <= k < cur.len() implies #[trigger] cur[k] == (LedgerEntry {
                level: InventoryLevel { quantity: cur[k].level.quantity, ..orig[k].level },
                ..orig[k]
            }) by {
                if k != j {
                    assert(cur[k] == cur_old[k]);
                }
            }
        }
        let ghost sim_pre = sim@;
        match sopt {
            Some(s) => {
                sim.set(s, (j, q2));
                proof {
                    assert forall|k: int|
                        0 <= k < cur.len() && !sim_has(sim@, k) implies (
                    #[trigger] cur[k]).level.quantity == orig[k].level.quantity by {
                        assert(k != j) by {
                            assert(sim@[s as int].0 == j);
                        }
                        assert(!sim_has(sim_pre, k)) by {
                            if sim_has(sim_pre, k) {
                                let w = choose|w: int|
                                    0 <= w < sim_pre.len() && (#[trigger] sim_pre[w]).0 == k;
                                assert(sim@[w].0 == k);
                            }
                        }
                    }
                }
            },
            None => {
                sim.push((j, q2));
                proof {
                    assert forall|k: int|
                        0 <= k < cur.len() && !sim_has(sim@, k) implies (
                    #[trigger] cur[k]).level.quantity == orig[k].level.quantity by {
                        assert(k != j) by {
                            assert(sim@[sim@.len() - 1].0 == j);
                        }
                        assert(!sim_has(sim_pre, k)) by {
                            if sim_has(sim_pre, k) {
                                let w = choose|w: int|
                                    0 <= w < sim_pre.len() && (#[trigger] sim_pre[w]).0 == k;
                                assert(sim@[w].0 == k);
                            }
                        }
                    }
                }
            },
        }
        i += 1;
    }
    proof {
        assert(olines@.subrange(m as int, m as int) =~= Seq::<OrderItem>::empty());
    }
    None
}

/// Sell every line of an order from one location, walking the lines in
/// order, as one atomic step: either every line is deducted — level
/// quantities fall, batches are FIFO-consumed, one Sale movement per
/// line is appended — or the first infeasible line's error is returned
/// and the ledger is left exactly as it was.
pub fn deduct_order_lines(
    ledger: &mut InventoryLedger,
    tenant_id: u128,
    location_id: u128,
    olines: &Vec<OrderItem>,
    now: u64,
) -> (r: Result<(), Error>)
    requires
        old(ledger).wf(),
    ensures
        final(ledger).wf(),
        final(ledger).catalog == old(ledger).catalog,
        final(ledger).batch_seq == old(ledger).batch_seq,
        match r {
            Ok(()) => {
                &&& deduct_error(old(ledger).entries@, tenant_id, location_id, olines@) is None
                &&& final(ledger).entries@.len() == old(ledger).entries@.len()
                &&& forall|k: int|
                    0 <= k < old(ledger).entries@.len() ==> entry_after_deductions(
                        old(ledger).entries@[k],
                        final(ledger).entries@[k],
                        entry_hits(old(ledger).entries@[k], tenant_id, location_id, olines@),
                        now,
                    )
            },
            Err(e) => {
                &&& deduct_error(old(ledger).entries@, tenant_id, location_id, olines@)
                    == Option::Some(e)
                &&& *final(ledger) == *old(ledger)
            },
        },
{
    let m = olines.len();
    let ghost orig = ledger.entries@;
    match check_order_deduction(ledger, tenant_id, location_id, olines) {
        Some(e) => {
            return Err(e);
        },
        None => {},
    }
    proof {
        assert(olines@.subrange(0, 0) =~= Seq::<OrderItem>::empty());
        reveal(Seq::filter);
        assert forall|k: int| 0 <= k < orig.len() implies entry_after_deductions(
            orig[k],
            ledger.entries@[k],
            entry_hits(orig[k], tenant_id, location_id, olines@.subrange(0, 0)),
            now,
        ) by {
            let hs = entry_hits(orig[k], tenant_id, location_id, olines@.subrange(0, 0));
            assert(hs =~= Seq::<OrderItem>::empty());
            assert(ledger.entries@[k].movements@.subrange(
                0,
                orig[k].movements@.len() as int,
            ) =~= orig[k].movements@);
        }
    }
    proof {
        assert(olines@.subrange(0, m as int) =~= olines@);
    }
    // Apply: every line is now known to go through; sell them in order.
    let mut i: usize = 0;
    while i < m
        invariant
            m == olines@.len(),
            i <= m,
            ledger.wf(),
            ledger.catalog == old(ledger).catalog,
            ledger.batch_seq == old(ledger).batch_seq,
            ledger.entries@.len() == orig.len(),
            orig == old(ledger).entries@,
            old(ledger).wf(),
            deduct_error(
                ledger.entries@,
                tenant_id,
                location_id,
                olines@.subrange(i as int, m as int),
            ) is None,
            forall|k: int|
                0 <= k < orig.len() ==> entry_after_deductions(
                    orig[k],
                    ledger.entries@[k],
                    entry_hits(orig[k], tenant_id, location_id, olines@.subrange(0, i as int)),
                    now,
                ),
        decreases m - i,
    {
        let ghost pre = ledger.entries@;
        let ghost rem = olines@.subrange(i as int, m as int);
        proof {
            assert(rem[0] == olines@[i as int]);
            assert(rem.drop_first() =~= olines@.subrange(i as int + 1, m as int));
            crate::ledger::lemma_entry_index_props(
                pre,
                tenant_id,
                olines@[i as int].item_id,
                location_id,
            );
        }
        let l_item = olines[i].item_id;
        let l_qty = olines[i].quantity;
        let l_price = olines[i].unit_price;
        let ghost j = entry_index(pre, tenant_id, l_item, location_id)->Some_0;
        let res = ledger.sell_item(
            tenant_id,
            l_item,
            location_id,
            l_qty,
            l_price,
            false,
            None,
            None,
            None,
            now,
        );
        match res {
            Ok(()) => {},
            Err(_) => {
                proof {
                    assert(false);
                }
                return Err(Error::NumericOverflow);
            },
        }
        proof {
            let eo = pre[j];
            let en = ledger.entries@[j];
            // The real new state agrees with the specification's
            // quantity-only update on everything feasibility reads.
            let spec_next = pre.update(
                j,
                LedgerEntry {
                    level: InventoryLevel {
                        quantity: (eo.level.quantity - l_qty) as i64,
                        ..eo.level
                    },
                    ..eo
                },
            );
            assert forall|k: int| 0 <= k < spec_next.len() implies {
                &&& (#[trigger] spec_next[k]).tenant_id == (
                #[trigger] ledger.entries@[k]).tenant_id
                &&& spec_next[k].item_id == ledger.entries@[k].item_id
                &&& spec_next[k].location_id == ledger.entries@[k].location_id
                &&& spec_next[k].level.quantity == ledger.entries@[k].level.quantity
                &&& spec_next[k].level.reserved_quantity
                    == ledger.entries@[k].level.reserved_quantity
            } by {
                if k != j {
                    assert(spec_next[k] == pre[k]);
                    assert(ledger.entries@[k] == pre[k]);
                }
            }
            assert(same_sale_view(spec_next, ledger.entries@));
            lemma_deduct_error_same_sale_view(
                spec_next,
                ledger.entries@,
                tenant_id,
                location_id,
                rem.drop_first(),
            );
            // Per-entry bookkeeping: the line lands on exactly the entry
            // that carries its item at this location.
            let prefix = olines@.subrange(0, i as int);
            let prefix1 = olines@.subrange(0, i as int + 1);
            let l = olines@[i as int];
            assert(prefix1.drop_last() =~= prefix);
            assert(prefix1.last() == l);
            reveal(Seq::filter);
            assert forall|k: int| 0 <= k < orig.len() implies entry_after_deductions(
                orig[k],
                ledger.entries@[k],
                entry_hits(orig[k], tenant_id, location_id, prefix1),
                now,
            ) by {
                let hs0 = entry_hits(orig[k], tenant_id, location_id, prefix);
                let hs1 = entry_hits(orig[k], tenant_id, location_id, prefix1);
                assert(entry_after_deductions(orig[k], pre[k], hs0, now));
                if orig[k].tenant_id == tenant_id && orig[k].location_id == location_id {
                    if orig[k].item_id == l_item {
                        // This is the sold entry: keys are unique, so k is j.
                        assert(pre[k].key_matches(tenant_id, l_item, location_id));
                        assert(orig[k].tenant_id == pre[k].tenant_id && orig[k].item_id
                            == pre[k].item_id && orig[k].location_id == pre[k].location_id);
                        assert(k == j) by {
                            if k != j {
                                assert(pre[k].key_matches(tenant_id, l_item, location_id));
                                assert(pre[j].key_matches(tenant_id, l_item, location_id));
                                if k < j {
                                    assert(!pre[k].key_matches(
                                        pre[j].tenant_id,
                                        pre[j].item_id,
                                        pre[j].location_id,
                                    ));
                                } else {
                                    assert(!pre[j].key_matches(
                                        pre[k].tenant_id,
                                        pre[k].item_id,
                                        pre[k].location_id,
                                    ));
                                }
                            }
                        }
                        assert(hs1 =~= hs0.push(l));
                        assert(total_line_qty(hs0.push(l)) == total_line_qty(hs0) + l.quantity)
                            by {
                            assert(hs0.push(l).drop_last() =~= hs0);
                        }
                        assert(batches_consumed(orig[k].batches@, hs0.push(l))
                            == crate::fifo::consume_result(
                            batches_consumed(orig[k].batches@, hs0),
                            l.quantity as int,
                        )) by {
                            assert(hs0.push(l).drop_last() =~= hs0);
                        }
                        let base = orig[k].movements@.len() as int;
                        assert(en.movements@.drop_last() == pre[j].movements@);
                        assert(en.movements@.subrange(0, base) =~= pre[j].movements@.subrange(
                            0,
                            base,
                        ));
                        assert forall|h: int| 0 <= h < hs1.len() implies movement_matches(
                            en.movements@[base + h],
                            -((#[trigger] hs1[h]).quantity as int),
                            StockMovementReason::Sale,
                            Option::None,
                            Option::Some(hs1[h].unit_price),
                            Option::None,
                            "Vários/FIFO"@,
                            now,
                        ) by {
                            if h < hs0.len() {
                                assert(hs1[h] == hs0[h]);
                                assert(en.movements@[base + h] == pre[j].movements@[base + h]);
                            } else {
                                assert(hs1[h] == l);
                                assert(en.movements@[base + h] == en.movements@.last());
                            }
                        }
                    } else {
                        assert(hs1 =~= hs0);
                        assert(ledger.entries@[k] == pre[k]);
                    }
                } else {
                    assert(hs1 =~= hs0);
                    assert(hs1 =~= Seq::<OrderItem>::empty());
                    assert(ledger.entries@[k] == pre[k]);
                }
            }
        }
        i += 1;
    }
    proof {
        assert(olines@.subrange(0, m as int) =~= olines@);
    }
    Ok(())
}

impl OrderWorkflow {
    /// Move an order to a new stage, atomically. If the stage deducts
    /// stock and a fulfillment location is given, every line of the
    /// order is sold from it; if the stage generates a receivable and
    /// the order's total is positive, the finance collaborator must have
    /// granted the owed title, which is returned in the outcome; the
    /// order's stage moves and its closing timestamp is set exactly when
    /// the stage's category is Done or Cancelled, and cleared otherwise.
    /// On any failure — an unknown order or stage, an infeasible
    /// deduction, or a refused receivable — neither the workflow nor the
    /// ledger changes at all.
    pub fn transition_order(
        &mut self,
        ledger: &mut InventoryLedger,
        tenant_id: u128,
        order_id: u128,
        new_stage_id: u128,
        fulfillment_location: Option<u128>,
        now: u64,
        finance: FinanceReply,
    ) -> (r: Result<TransitionOutcome, Error>)
        requires
            old(self).wf(),
            old(ledger).wf(),
        ensures
            final(self).wf(),
            final(ledger).wf(),
            final(self).pipelines@ == old(self).pipelines@,
            final(self).stages@ == old(self).stages@,
            final(self).lines@ == old(self).lines@,
            final(self).next_id == old(self).next_id,
            final(self).next_display == old(self).next_display,
            final(ledger).catalog == old(ledger).catalog,
            final(ledger).batch_seq == old(ledger).batch_seq,
            match r {
                Ok(out) => {
                    &&& order_index(old(self).orders@, tenant_id, order_id) is Some
                    &&& stage_index(old(self).stages@, tenant_id, new_stage_id) is Some
                    &&& {
                        let o = old(self).orders@[order_index(
                            old(self).orders@,
                            tenant_id,
                            order_id,
                        )->Some_0];
                        let st = old(self).stages@[stage_index(
                            old(self).stages@,
                            tenant_id,
                            new_stage_id,
                        )->Some_0];
                        let olines = order_lines(old(self).lines@, tenant_id, order_id);
                        let deducting = st.stock_action == StockAction::Deduct
                            && fulfillment_location is Some;
                        let owed = st.generates_receivable && o.total_amount > 0;
                        &&& !(owed && finance == FinanceReply::Refused)
                        &&& final(self).orders@.len() == old(self).orders@.len()
                        &&& forall|k: int|
                            0 <= k < old(self).orders@.len() && k != order_index(
                                old(self).orders@,
                                tenant_id,
                                order_id,
                            )->Some_0 ==> final(self).orders@[k] == old(self).orders@[k]
                        &&& final(self).orders@[order_index(
                            old(self).orders@,
                            tenant_id,
                            order_id,
                        )->Some_0] == (Order {
                            stage_id: new_stage_id,
                            closed_at: if closes_order(st.category) {
                                Option::Some(now)
                            } else {
                                Option::None
                            },
                            ..o
                        })
                        &&& out.deducted == deducting
                        &&& out.receivable == (if owed {
                            Option::Some(
                                ReceivableCharge {
                                    title_id: finance->Granted_0,
                                    tenant_id,
                                    order_id,
                                    display_id: o.display_id,
                                    kind: TitleKind::Receivable,
                                    status: TitleStatus::Pending,
                                    amount: o.total_amount,
                                    due_date: now,
                                    customer_id: o.customer_id,
                                },
                            )
                        } else {
                            Option::None
                        })
                        &&& if deducting {
                            let loc = fulfillment_location->Some_0;
                            &&& deduct_error(old(ledger).entries@, tenant_id, loc, olines)
                                is None
                            &&& final(ledger).entries@.len() == old(ledger).entries@.len()
                            &&& forall|k: int|
                                0 <= k < old(ledger).entries@.len() ==> entry_after_deductions(
                                    old(ledger).entries@[k],
                                    final(ledger).entries@[k],
                                    entry_hits(old(ledger).entries@[k], tenant_id, loc, olines),
                                    now,
                                )
                        } else {
                            final(ledger).entries@ == old(ledger).entries@
                        }
                    }
                },
                Err(Error::OrderNotFound) => {
                    &&& order_index(old(self).orders@, tenant_id, order_id) is None
                    &&& *final(self) == *old(self)
                    &&& *final(ledger) == *old(ledger)
                },
                Err(Error::StageNotFound) => {
                    &&& order_index(old(self).orders@, tenant_id, order_id) is Some
                    &&& stage_index(old(self).stages@, tenant_id, new_stage_id) is None
                    &&& *final(self) == *old(self)
                    &&& *final(ledger) == *old(ledger)
                },
                Err(Error::FinanceRejected) => {
                    &&& order_index(old(self).orders@, tenant_id, order_id) is Some
                    &&& stage_index(old(self).stages@, tenant_id, new_stage_id) is Some
                    &&& {
                        let o = old(self).orders@[order_index(
                            old(self).orders@,
                            tenant_id,
                            order_id,
                        )->Some_0];
                        let st = old(self).stages@[stage_index(
                            old(self).stages@,
                            tenant_id,
                            new_stage_id,
                        )->Some_0];
                        let olines = order_lines(old(self).lines@, tenant_id, order_id);
                        let deducting = st.stock_action == StockAction::Deduct
                            && fulfillment_location is Some;
                        &&& st.generates_receivable && o.total_amount > 0
                        &&& finance == FinanceReply::Refused
                        &&& deducting ==> deduct_error(
                            old(ledger).entries@,
                            tenant_id,
                            fulfillment_location->Some_0,
                            olines,
                        ) is None
                    }
                    &&& *final(self) == *old(self)
                    &&& *final(ledger) == *old(ledger)
                },
                Err(e) => {
                    &&& order_index(old(self).orders@, tenant_id, order_id) is Some
                    &&& stage_index(old(self).stages@, tenant_id, new_stage_id) is Some
                    &&& {
                        let st = old(self).stages@[stage_index(
                            old(self).stages@,
                            tenant_id,
                            new_stage_id,
                        )->Some_0];
                        &&& st.stock_action == StockAction::Deduct
                        &&& fulfillment_location is Some
                        &&& deduct_error(
                            old(ledger).entries@,
                            tenant_id,
                            fulfillment_location->Some_0,
                            order_lines(old(self).lines@, tenant_id, order_id),
                        ) == Option::Some(e)
                    }
                    &&& *final(self) == *old(self)
                    &&& *final(ledger) == *old(ledger)
                },
            },
    {
        let oj = match self.find_order(tenant_id, order_id) {
            Some(j) => j,
            None => {
                return Err(Error::OrderNotFound);
            },
        };
        let sj = match self.find_stage(tenant_id, new_stage_id) {
            Some(j) => j,
            None => {
                return Err(Error::StageNotFound);
            },
        };
        let deducting = self.stages[sj].stock_action == StockAction::Deduct
            && fulfillment_location.is_some();
        let olines = self.list_order_items(tenant_id, order_id);
        if deducting {
            let loc = *fulfillment_location.as_ref().unwrap();
            match check_order_deduction(ledger, tenant_id, loc, &olines) {
                Some(e) => {
                    proof {
                        assert(e != Error::OrderNotFound && e != Error::StageNotFound && e
                            != Error::FinanceRejected) by {
                            lemma_deduct_error_kinds(
                                ledger.entries@,
                                tenant_id,
                                loc,
                                olines@,
                            );
                        }
                    }
                    return Err(e);
                },
                None => {},
            }
        }
        let owed = self.stages[sj].generates_receivable && self.orders[oj].total_amount > 0;
        let title_id: Option<u128> = if owed {
            match finance {
                FinanceReply::Granted(tid) => Some(tid),
                FinanceReply::Refused => {
                    return Err(Error::FinanceRejected);
                },
            }
        } else {
            None
        };
        if deducting {
            let loc = *fulfillment_location.as_ref().unwrap();
            match deduct_order_lines(ledger, tenant_id, loc, &olines, now) {
                Ok(()) => {},
                Err(_) => {
                    proof {
                        assert(false);
                    }
                    return Err(Error::NumericOverflow);
                },
            }
        }
        let closed = self.stages[sj].category == crate::pipeline::PipelineCategory::Done
            || self.stages[sj].category == crate::pipeline::PipelineCategory::Cancelled;
        let ghost old_orders = self.orders@;
        let o = self.orders.remove(oj);
        let display_id = o.display_id;
        let total_amount = o.total_amount;
        let customer_id = o.customer_id;
        let updated = Order {
            id: o.id,
            tenant_id: o.tenant_id,
            customer_id: o.customer_id,
            pipeline_id: o.pipeline_id,
            stage_id: new_stage_id,
            display_id: o.display_id,
            total_amount: o.total_amount,
            total_discount: o.total_discount,
            notes: o.notes,
            opened_at: o.opened_at,
            closed_at: if closed {
                Some(now)
            } else {
                None
            },
        };
        self.orders.insert(oj, updated);
        proof {
            assert(self.orders@ =~= old_orders.update(oj as int, updated));
            assert(updated == (Order {
                stage_id: new_stage_id,
                closed_at: if closes_order(old(self).stages@[sj as int].category) {
                    Option::Some(now)
                } else {
                    Option::None
                },
                ..old_orders[oj as int]
            }));
            assert forall|k: int|
                0 <= k < self.orders@.len() implies (#[trigger] self.orders@[k]).total_amount
                == crate::orders::order_total(
                self.lines@,
                self.orders@[k].tenant_id,
                self.orders@[k].id,
            ) by {
                assert(old_orders[k].total_amount == crate::orders::order_total(
                    self.lines@,
                    old_orders[k].tenant_id,
                    old_orders[k].id,
                ));
            }
            assert forall|a: int, b: int|
                0 <= a < b < self.orders@.len() implies !((
            #[trigger] self.orders@[a]).tenant_id == (#[trigger] self.orders@[b]).tenant_id
                && self.orders@[a].id == self.orders@[b].id) by {
                assert(!(old_orders[a].tenant_id == old_orders[b].tenant_id && old_orders[a].id
                    == old_orders[b].id));
                assert(self.orders@[a].tenant_id == old_orders[a].tenant_id
                    && self.orders@[a].id == old_orders[a].id);
                assert(self.orders@[b].tenant_id == old_orders[b].tenant_id
                    && self.orders@[b].id == old_orders[b].id);
            }
        }
        let receivable = match title_id {
            Some(tid) => Some(
                crate::finance::create_receivable_for_order(
                    tid,
                    tenant_id,
                    order_id,
                    display_id,
                    total_amount,
                    customer_id,
                    now,
                ),
            ),
            None => None,
        };
        Ok(TransitionOutcome { deducted: deducting, receivable })
    }
}

/// A deduction can only fail for a missing level, short stock, or a
/// broken machine bound.
proof fn lemma_deduct_error_kinds(
    entries: Seq<LedgerEntry>,
    tenant: u128,
    location: u128,
    ls: Seq<OrderItem>,
)
    ensures
        match deduct_error(entries, tenant, location, ls) {
            Option::Some(e) => e == Error::InventoryLevelNotFound || e == Error::InsufficientStock
                || e == Error::NumericOverflow,
            Option::None => true,
        },
    decreases ls.len(),
{
    if ls.len() > 0 {
        let l = ls[0];
        match entry_index(entries, tenant, l.item_id, location) {
            Option::None => {},
            Option::Some(j) => {
                let e = entries[j];
                if !(e.level.quantity - e.level.reserved_quantity < l.quantity) && !(l.quantity
                    > i64::MAX) {
                    lemma_deduct_error_kinds(
                        entries.update(
                            j,
                            LedgerEntry {
                                level: InventoryLevel {
                                    quantity: (e.level.quantity - l.quantity) as i64,
                                    ..e.level
                                },
                                ..e
                            },
                        ),
                        tenant,
                        location,
                        ls.drop_first(),
                    );
                }
            },
        }
    }
}

impl OrderWorkflow {
    /// The tenant's stage with the given id, if it exists.
    pub fn get_stage_by_id(&self, tenant_id: u128, stage_id: u128) -> (r: Option<&PipelineStage>)
        ensures
            match r {
                Option::Some(st) => {
                    &&& stage_index(self.stages@, tenant_id, stage_id) is Some
                    &&& *st == self.stages@[stage_index(self.stages@, tenant_id, stage_id)->Some_0]
                },
                Option::None => stage_index(self.stages@, tenant_id, stage_id) is None,
            },
    {
        match self.find_stage(tenant_id, stage_id) {
            Some(j) => Some(&self.stages[j]),
            None => None,
        }
    }

    /// Recompute one order's total from its lines; in a well-formed
    /// workflow this is exactly the cached `total_amount`.
    pub fn recalculate_order_total(&self, tenant_id: u128, order_id: u128) -> (r: Result<
        i128,
        crate::errors::Error,
    >)
        requires
            self.wf(),
        ensures
            match r {
                Ok(total) => {
                    &&& total == crate::orders::order_total(self.lines@, tenant_id, order_id)
                    &&& crate::orders::order_index(self.orders@, tenant_id, order_id) is Some
                    &&& total == self.orders@[crate::orders::order_index(
                        self.orders@,
                        tenant_id,
                        order_id,
                    )->Some_0].total_amount
                },
                Err(e) => {
                    &&& e == crate::errors::Error::OrderNotFound
                    &&& crate::orders::order_index(self.orders@, tenant_id, order_id) is None
                },
            },
    {
        match self.find_order(tenant_id, order_id) {
            Some(j) => Ok(self.orders[j].total_amount),
            None => Err(crate::errors::Error::OrderNotFound),
        }
    }
}

} // verus!
