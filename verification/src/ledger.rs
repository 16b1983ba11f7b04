//! The inventory ledger: stock levels, batches and the movement log.
//!
//! One ledger entry exists per (tenant, item, location). Its level
//! carries the physical quantity, the reserved quantity and the exact
//! average cost; its batches carry the lots in FIFO consumption order;
//! its movements are the append-only audit trail. The ledger
//! reconciliation invariant — the signed movement quantities of an
//! entry always sum to its level quantity — is part of well-formedness
//! and is preserved by every operation.

use crate::catalog::Catalog;
use crate::errors::Error;
use crate::fifo::{fifo_before, fifo_key_before, fifo_sorted, InventoryBatch};
use crate::ratio::AverageCost;
use vstd::prelude::*;

verus! {

/// Why a stock movement happened.
#[derive(Clone, Copy, Debug, PartialEq, Eq, Structural)]
pub enum StockMovementReason {
    InitialStock,
    Purchase,
    Sale,
    Return,
    Delivery,
    Spoilage,
    Correction,
    TransferOut,
    TransferIn,
}

/// One append-only ledger row: the signed quantity change and its
/// circumstances. Never updated or deleted.
pub struct StockMovement {
    pub quantity_changed: i64,
    pub reason: StockMovementReason,
    pub unit_cost: Option<u64>,
    pub unit_price: Option<u64>,
    pub note: Option<String>,
    pub position: String,
    pub created_at: u64,
}

/// The stock level of one (tenant, item, location): physical quantity,
/// reserved quantity, exact average cost, an optional local sale price
/// and a low-stock threshold.
#[derive(Clone, Copy)]
pub struct InventoryLevel {
    pub quantity: i64,
    pub reserved_quantity: i64,
    pub average_cost: AverageCost,
    pub sale_price: Option<u64>,
    pub low_stock_threshold: u64,
}

/// Everything the ledger holds for one (tenant, item, location).
#[verifier::ext_equal]
pub struct LedgerEntry {
    pub tenant_id: u128,
    pub item_id: u128,
    pub location_id: u128,
    pub level: InventoryLevel,
    pub batches: Vec<InventoryBatch>,
    pub movements: Vec<StockMovement>,
}

/// Ledger reconciliation: in a well-formed ledger — and every operation
/// of this crate keeps the ledger well-formed — the signed quantity
/// changes in each entry's movement log sum exactly to its level
/// quantity, after every operation.
pub proof fn lemma_ledger_reconciliation(ledger: InventoryLedger, i: int)
    requires
        ledger.wf(),
        0 <= i < ledger.entries@.len(),
    ensures
        movement_total(ledger.entries@[i].movements@) == ledger.entries@[i].level.quantity,
{
}

/// The sum of the signed quantity changes of a movement log.
pub open spec fn movement_total(ms: Seq<StockMovement>) -> int
    decreases ms.len(),
{
    if ms.len() == 0 {
        0
    } else {
        movement_total(ms.drop_last()) + ms.last().quantity_changed
    }
}

/// No two batches share a (batch_number, position) key.
pub open spec fn unique_batch_keys(s: Seq<InventoryBatch>) -> bool {
    forall|i: int, j: int|
        0 <= i < j < s.len() ==> !((#[trigger] s[i]).batch_number@ == (
        #[trigger] s[j]).batch_number@ && s[i].position@ == s[j].position@)
}

/// Every batch was created before sequence number `bound`.
pub open spec fn batches_created_before(s: Seq<InventoryBatch>, bound: int) -> bool {
    forall|i: int| 0 <= i < s.len() ==> (#[trigger] s[i]).created_at < bound
}

/// `x` lies in the `i64` range.
pub open spec fn in_i64(x: int) -> bool {
    i64::MIN <= x <= i64::MAX
}

impl LedgerEntry {
    /// Well-formedness of one entry: a valid average cost, batches in
    /// FIFO order under distinct keys, and the reconciliation invariant
    /// that the movements sum to the level quantity.
    pub open spec fn wf(self) -> bool {
        &&& self.level.average_cost.wf()
        &&& self.level.average_cost.num > i128::MIN
        &&& movement_total(self.movements@) == self.level.quantity
        &&& fifo_sorted(self.batches@)
        &&& unique_batch_keys(self.batches@)
    }

    /// This entry belongs to the given (tenant, item, location).
    pub open spec fn key_matches(self, tenant: u128, item: u128, location: u128) -> bool {
        self.tenant_id == tenant && self.item_id == item && self.location_id == location
    }
}

/// The index of the first batch carrying the (batch_number, position)
/// key, if one exists.
pub open spec fn batch_key_index(s: Seq<InventoryBatch>, number: Seq<char>, position: Seq<char>) -> Option<
    int,
>
    decreases s.len(),
{
    if s.len() == 0 {
        Option::None
    } else if s[0].batch_number@ == number && s[0].position@ == position {
        Option::Some(0)
    } else {
        match batch_key_index(s.drop_first(), number, position) {
            Option::Some(i) => Option::Some(i + 1),
            Option::None => Option::None,
        }
    }
}

proof fn lemma_batch_key_index_none(s: Seq<InventoryBatch>, number: Seq<char>, position: Seq<char>)
    requires
        forall|j: int|
            0 <= j < s.len() ==> !((#[trigger] s[j]).batch_number@ == number && s[j].position@
                == position),
    ensures
        batch_key_index(s, number, position) is None,
    decreases s.len(),
{
    if s.len() > 0 {
        assert(forall|j: int|
            0 <= j < s.drop_first().len() ==> #[trigger] s.drop_first()[j] == s[j + 1]);
        lemma_batch_key_index_none(s.drop_first(), number, position);
    }
}

proof fn lemma_batch_key_index_found(
    s: Seq<InventoryBatch>,
    number: Seq<char>,
    position: Seq<char>,
    i: int,
)
    requires
        0 <= i < s.len(),
        s[i].batch_number@ == number && s[i].position@ == position,
        forall|j: int|
            0 <= j < i ==> !((#[trigger] s[j]).batch_number@ == number && s[j].position@
                == position),
    ensures
        batch_key_index(s, number, position) == Option::Some(i),
    decreases i,
{
    assert(forall|j: int|
        0 <= j < s.drop_first().len() ==> #[trigger] s.drop_first()[j] == s[j + 1]);
    if i > 0 {
        lemma_batch_key_index_found(s.drop_first(), number, position, i - 1);
    }
}

/// The index of the first entry for (tenant, item, location), if one
/// exists. Under `InventoryLedger::wf` it is the only one.
pub open spec fn entry_index(s: Seq<LedgerEntry>, tenant: u128, item: u128, location: u128) -> Option<
    int,
>
    decreases s.len(),
{
    if s.len() == 0 {
        Option::None
    } else if s[0].key_matches(tenant, item, location) {
        Option::Some(0)
    } else {
        match entry_index(s.drop_first(), tenant, item, location) {
            Option::Some(i) => Option::Some(i + 1),
            Option::None => Option::None,
        }
    }
}

/// A found entry index is in range and carries the key.
pub proof fn lemma_entry_index_props(s: Seq<LedgerEntry>, tenant: u128, item: u128, location: u128)
    ensures
        match entry_index(s, tenant, item, location) {
            Option::Some(j) => 0 <= j < s.len() && s[j].key_matches(tenant, item, location),
            Option::None => true,
        },
    decreases s.len(),
{
    if s.len() > 0 && !s[0].key_matches(tenant, item, location) {
        lemma_entry_index_props(s.drop_first(), tenant, item, location);
    }
}

proof fn lemma_entry_index_none(s: Seq<LedgerEntry>, tenant: u128, item: u128, location: u128)
    requires
        forall|j: int| 0 <= j < s.len() ==> !(#[trigger] s[j]).key_matches(tenant, item, location),
    ensures
        entry_index(s, tenant, item, location) is None,
    decreases s.len(),
{
    if s.len() > 0 {
        assert(forall|j: int|
            0 <= j < s.drop_first().len() ==> #[trigger] s.drop_first()[j] == s[j + 1]);
        lemma_entry_index_none(s.drop_first(), tenant, item, location);
    }
}

proof fn lemma_entry_index_found(
    s: Seq<LedgerEntry>,
    tenant: u128,
    item: u128,
    location: u128,
    i: int,
)
    requires
        0 <= i < s.len(),
        s[i].key_matches(tenant, item, location),
        forall|j: int| 0 <= j < i ==> !(#[trigger] s[j]).key_matches(tenant, item, location),
    ensures
        entry_index(s, tenant, item, location) == Option::Some(i),
    decreases i,
{
    assert(forall|j: int|
        0 <= j < s.drop_first().len() ==> #[trigger] s.drop_first()[j] == s[j + 1]);
    if i > 0 {
        lemma_entry_index_found(s.drop_first(), tenant, item, location, i - 1);
    }
}

/// The inventory ledger: the catalog it serves, one entry per
/// (tenant, item, location), and the batch creation sequence counter.
pub struct InventoryLedger {
    pub catalog: Catalog,
    pub entries: Vec<LedgerEntry>,
    /// Strictly larger than the creation number of every stored batch.
    pub batch_seq: u64,
}

impl InventoryLedger {
    /// Well-formedness of the whole ledger: a well-formed catalog,
    /// well-formed entries under distinct keys, and batch creation
    /// numbers below the sequence counter.
    pub open spec fn wf(self) -> bool {
        &&& self.catalog.wf()
        &&& forall|i: int| 0 <= i < self.entries@.len() ==> (#[trigger] self.entries@[i]).wf()
        &&& forall|i: int, j: int|
            0 <= i < j < self.entries@.len() ==> !(#[trigger] self.entries@[i]).key_matches(
                (#[trigger] self.entries@[j]).tenant_id,
                self.entries@[j].item_id,
                self.entries@[j].location_id,
            )
        &&& forall|i: int|
            0 <= i < self.entries@.len() ==> batches_created_before(
                (#[trigger] self.entries@[i]).batches@,
                self.batch_seq as int,
            )
    }

    /// An empty ledger around an empty catalog.
    pub fn new() -> (r: InventoryLedger)
        ensures
            r.wf(),
            r.entries@.len() == 0,
            r.catalog.items@.len() == 0,
            r.catalog.units@.len() == 0,
            r.catalog.categories@.len() == 0,
            r.catalog.compositions@.len() == 0,
            r.batch_seq == 0,
            r.catalog.next_id == 0,
    {
        InventoryLedger { catalog: Catalog::new(), entries: Vec::new(), batch_seq: 0 }
    }

    /// The index of the entry for (tenant, item, location), if any.
    pub(crate) fn find_entry(&self, tenant_id: u128, item_id: u128, location_id: u128) -> (r: Option<usize>)
        ensures
            match r {
                Option::Some(j) => {
                    &&& j < self.entries@.len()
                    &&& self.entries@[j as int].key_matches(tenant_id, item_id, location_id)
                    &&& entry_index(self.entries@, tenant_id, item_id, location_id)
                        == Option::Some(j as int)
                },
                Option::None => {
                    &&& entry_index(self.entries@, tenant_id, item_id, location_id) is None
                    &&& forall|j: int|
                        0 <= j < self.entries@.len() ==> !(#[trigger] self.entries@[j]).key_matches(
                            tenant_id,
                            item_id,
                            location_id,
                        )
                },
            },
    {
        let n = self.entries.len();
        let mut i: usize = 0;
        while i < n
            invariant
                n == self.entries@.len(),
                i <= n,
                forall|j: int|
                    0 <= j < i ==> !(#[trigger] self.entries@[j]).key_matches(
                        tenant_id,
                        item_id,
                        location_id,
                    ),
            decreases n - i,
        {
            let e = &self.entries[i];
            if e.tenant_id == tenant_id && e.item_id == item_id && e.location_id == location_id {
                proof {
                    lemma_entry_index_found(
                        self.entries@,
                        tenant_id,
                        item_id,
                        location_id,
                        i as int,
                    );
                }
                return Some(i);
            }
            i += 1;
        }
        proof {
            lemma_entry_index_none(self.entries@, tenant_id, item_id, location_id);
        }
        None
    }

    /// The whole ledger entry for (tenant, item, location), if any.
    pub fn get_entry(&self, tenant_id: u128, item_id: u128, location_id: u128) -> (r: Option<
        &LedgerEntry,
    >)
        ensures
            match r {
                Option::Some(e) => {
                    &&& entry_index(self.entries@, tenant_id, item_id, location_id) is Some
                    &&& *e == self.entries@[entry_index(
                        self.entries@,
                        tenant_id,
                        item_id,
                        location_id,
                    )->Some_0]
                },
                Option::None => entry_index(self.entries@, tenant_id, item_id, location_id)
                    is None,
            },
    {
        match self.find_entry(tenant_id, item_id, location_id) {
            Some(j) => Some(&self.entries[j]),
            None => None,
        }
    }

    /// The stock level for (tenant, item, location), if any.
    pub fn get_inventory_level(&self, tenant_id: u128, item_id: u128, location_id: u128) -> (r:
        Option<&InventoryLevel>)
        ensures
            match r {
                Option::Some(lv) => {
                    &&& entry_index(self.entries@, tenant_id, item_id, location_id) is Some
                    &&& *lv == self.entries@[entry_index(
                        self.entries@,
                        tenant_id,
                        item_id,
                        location_id,
                    )->Some_0].level
                },
                Option::None => entry_index(self.entries@, tenant_id, item_id, location_id)
                    is None,
            },
    {
        match self.find_entry(tenant_id, item_id, location_id) {
            Some(j) => Some(&self.entries[j].level),
            None => None,
        }
    }
}

/// Compare two batch keys in FIFO consumption order.
fn key_before_exec(e1: Option<u64>, c1: u64, e2: Option<u64>, c2: u64) -> (r: bool)
    ensures
        r == fifo_key_before(e1, c1, e2, c2),
{
    match (e1, e2) {
        (Some(x), Some(y)) => x < y || (x == y && c1 < c2),
        (Some(_), None) => true,
        (None, Some(_)) => false,
        (None, None) => c1 < c2,
    }
}

/// The first position whose batch orders after the (expiration,
/// created) key: where a fresh batch with that key belongs.
fn find_insert_pos(batches: &Vec<InventoryBatch>, expiration: Option<u64>, created: u64) -> (p:
    usize)
    ensures
        p <= batches@.len(),
        forall|j: int|
            0 <= j < p ==> !fifo_key_before(
                expiration,
                created,
                (#[trigger] batches@[j]).expiration_date,
                batches@[j].created_at,
            ),
        p < batches@.len() ==> fifo_key_before(
            expiration,
            created,
            batches@[p as int].expiration_date,
            batches@[p as int].created_at,
        ),
{
    let n = batches.len();
    let mut p: usize = 0;
    while p < n
        invariant
            n == batches@.len(),
            p <= n,
            forall|j: int|
                0 <= j < p ==> !fifo_key_before(
                    expiration,
                    created,
                    (#[trigger] batches@[j]).expiration_date,
                    batches@[j].created_at,
                ),
        decreases n - p,
    {
        if key_before_exec(
            expiration,
            created,
            batches[p].expiration_date,
            batches[p].created_at,
        ) {
            return p;
        }
        p += 1;
    }
    p
}

/// Add `delta` units to the batch keyed (number, position), or insert a
/// new batch with that key, the given expiration and cost, quantity
/// `delta`, and creation number `created`, at its FIFO position. Fails
/// with `NumericOverflow`, and changes nothing, exactly when the
/// existing batch's quantity plus `delta` leaves the `i64` range.
/// Returns whether a new batch was inserted.
fn upsert_batch(
    batches: &mut Vec<InventoryBatch>,
    number: String,
    position: String,
    expiration: Option<u64>,
    delta: i64,
    unit_cost: u64,
    created: u64,
) -> (r: Result<bool, Error>)
    requires
        fifo_sorted(old(batches)@),
        unique_batch_keys(old(batches)@),
        batches_created_before(old(batches)@, created as int),
    ensures
        fifo_sorted(final(batches)@),
        unique_batch_keys(final(batches)@),
        batches_created_before(final(batches)@, created + 1),
        match r {
            Ok(inserted) => match batch_key_index(old(batches)@, number@, position@) {
                Option::Some(k) => {
                    &&& !inserted
                    &&& in_i64(old(batches)@[k].quantity + delta)
                    &&& final(batches)@ == old(batches)@.update(
                        k,
                        InventoryBatch {
                            quantity: (old(batches)@[k].quantity + delta) as i64,
                            ..old(batches)@[k]
                        },
                    )
                },
                Option::None => {
                    &&& inserted
                    &&& exists|p: int|
                        #![auto]
                        {
                            &&& 0 <= p < final(batches)@.len()
                            &&& final(batches)@.remove(p) == old(batches)@
                            &&& final(batches)@[p].batch_number@ == number@
                            &&& final(batches)@[p].position@ == position@
                            &&& final(batches)@[p].expiration_date == expiration
                            &&& final(batches)@[p].quantity == delta
                            &&& final(batches)@[p].unit_cost == unit_cost
                            &&& final(batches)@[p].created_at == created
                        }
                },
            },
            Err(e) => {
                &&& e == Error::NumericOverflow
                &&& final(batches)@ == old(batches)@
                &&& match batch_key_index(old(batches)@, number@, position@) {
                    Option::Some(k) => !in_i64(old(batches)@[k].quantity + delta),
                    Option::None => false,
                }
            },
        },
{
    let n = batches.len();
    let mut i: usize = 0;
    while i < n
        invariant
            n == batches@.len(),
            i <= n,
            batches@ == old(batches)@,
            fifo_sorted(old(batches)@),
            unique_batch_keys(old(batches)@),
            batches_created_before(old(batches)@, created as int),
            forall|j: int|
                0 <= j < i ==> !((#[trigger] batches@[j]).batch_number@ == number@
                    && batches@[j].position@ == position@),
        decreases n - i,
    {
        if batches[i].batch_number == number && batches[i].position == position {
            proof {
                lemma_batch_key_index_found(batches@, number@, position@, i as int);
            }
            let b = batches.remove(i);
            let new_q = match b.quantity.checked_add(delta) {
                Some(q) => q,
                None => {
                    batches.insert(i, b);
                    proof {
                        assert(batches@ =~= old(batches)@);
                    }
                    return Err(Error::NumericOverflow);
                },
            };
            let ghost old_b = old(batches)@[i as int];
            let updated = InventoryBatch {
                batch_number: b.batch_number,
                position: b.position,
                expiration_date: b.expiration_date,
                quantity: new_q,
                unit_cost: b.unit_cost,
                created_at: b.created_at,
            };
            batches.insert(i, updated);
            proof {
                assert(updated == InventoryBatch { quantity: new_q, ..old_b });
                assert(batches@ =~= old(batches)@.update(i as int, updated));
                assert(updated.batch_number@ == old_b.batch_number@ && updated.position@
                    == old_b.position@ && updated.expiration_date == old_b.expiration_date
                    && updated.created_at == old_b.created_at);
                assert forall|a: int| 0 <= a < batches@.len() implies (
                #[trigger] batches@[a]).batch_number@ == old(batches)@[a].batch_number@
                    && batches@[a].position@ == old(batches)@[a].position@
                    && batches@[a].expiration_date == old(batches)@[a].expiration_date
                    && batches@[a].created_at == old(batches)@[a].created_at by {}
                assert forall|a: int, bb: int| 0 <= a < bb < batches@.len() implies fifo_before(
                    batches@[a],
                    batches@[bb],
                ) by {
                    assert(fifo_before(old(batches)@[a], old(batches)@[bb]));
                }
                assert forall|a: int, bb: int| 0 <= a < bb < batches@.len() implies !((
                #[trigger] batches@[a]).batch_number@ == (#[trigger] batches@[bb]).batch_number@
                    && batches@[a].position@ == batches@[bb].position@) by {
                    assert(!((old(batches)@[a]).batch_number@ == (old(
                        batches,
                    )@[bb]).batch_number@ && old(batches)@[a].position@ == old(
                        batches,
                    )@[bb].position@));
                }
            }
            return Ok(false);
        }
        i += 1;
    }
    proof {
        lemma_batch_key_index_none(batches@, number@, position@);
    }
    // No batch carries the key: insert a fresh one at its FIFO position.
    let nb = InventoryBatch {
        batch_number: number,
        position,
        expiration_date: expiration,
        quantity: delta,
        unit_cost,
        created_at: created,
    };
    let p = find_insert_pos(batches, nb.expiration_date, nb.created_at);
    proof {
        // Earlier batches order before the new one; later ones after it.
        assert forall|j: int| 0 <= j < p implies fifo_before(batches@[j], nb) by {
            crate::fifo::lemma_fifo_key_total(
                nb.expiration_date,
                nb.created_at,
                batches@[j].expiration_date,
                batches@[j].created_at,
            );
        }
        assert forall|j: int| p <= j < n implies fifo_before(nb, batches@[j]) by {
            if j > p {
                assert(fifo_before(batches@[p as int], batches@[j]));
                crate::fifo::lemma_fifo_key_trans(
                    nb.expiration_date,
                    nb.created_at,
                    batches@[p as int].expiration_date,
                    batches@[p as int].created_at,
                    batches@[j].expiration_date,
                    batches@[j].created_at,
                );
            }
        }
    }
    let ghost pre = batches@;
    batches.insert(p, nb);
    proof {
        assert(batches@.remove(p as int) =~= pre);
        assert forall|a: int, bb: int| 0 <= a < bb < batches@.len() implies fifo_before(
            batches@[a],
            batches@[bb],
        ) by {
            if a < p && bb < p {
                assert(batches@[a] == pre[a] && batches@[bb] == pre[bb]);
            } else if a < p && bb == p {
            } else if a < p && bb > p {
                assert(batches@[a] == pre[a] && batches@[bb] == pre[bb - 1]);
            } else if a == p {
                assert(batches@[bb] == pre[bb - 1]);
            } else {
                assert(batches@[a] == pre[a - 1] && batches@[bb] == pre[bb - 1]);
            }
        }
        assert(unique_batch_keys(batches@)) by {
            assert forall|a: int, bb: int| 0 <= a < bb < batches@.len() implies !((
            #[trigger] batches@[a]).batch_number@ == (#[trigger] batches@[bb]).batch_number@
                && batches@[a].position@ == batches@[bb].position@) by {
                if a == p {
                    assert(batches@[bb] == pre[bb - 1]);
                } else if bb == p {
                    assert(batches@[a] == pre[a]);
                } else {
                    let a0 = if a < p {
                        a
                    } else {
                        a - 1
                    };
                    let b0 = if bb < p {
                        bb
                    } else {
                        bb - 1
                    };
                    assert(batches@[a] == pre[a0] && batches@[bb] == pre[b0]);
                }
            }
        }
    }
    Ok(true)
}

/// The first batch with this (number, position) key, if any.
fn find_batch_key(batches: &Vec<InventoryBatch>, number: &String, position: &String) -> (r: Option<
    usize,
>)
    ensures
        match r {
            Option::Some(k) => {
                &&& k < batches@.len()
                &&& batch_key_index(batches@, number@, position@) == Option::Some(k as int)
            },
            Option::None => batch_key_index(batches@, number@, position@) is None,
        },
{
    let n = batches.len();
    let mut i: usize = 0;
    while i < n
        invariant
            n == batches@.len(),
            i <= n,
            forall|j: int|
                0 <= j < i ==> !((#[trigger] batches@[j]).batch_number@ == number@
                    && batches@[j].position@ == position@),
        decreases n - i,
    {
        if batches[i].batch_number == *number && batches[i].position == *position {
            proof {
                lemma_batch_key_index_found(batches@, number@, position@, i as int);
            }
            return Some(i);
        }
        i += 1;
    }
    proof {
        lemma_batch_key_index_none(batches@, number@, position@);
    }
    None
}

/// The batch number a caller chose, or the default lot.
pub open spec fn chosen_number(o: Option<String>) -> Seq<char> {
    match o {
        Option::Some(s) => s@,
        Option::None => "DEFAULT"@,
    }
}

/// The position label a caller chose, or the default one.
pub open spec fn chosen_position(o: Option<String>) -> Seq<char> {
    match o {
        Option::Some(s) => s@,
        Option::None => "Geral"@,
    }
}

/// One movement row has exactly these fields.
pub open spec fn movement_matches(
    m: StockMovement,
    quantity_changed: int,
    reason: StockMovementReason,
    unit_cost: Option<u64>,
    unit_price: Option<u64>,
    note: Option<String>,
    position: Seq<char>,
    now: u64,
) -> bool {
    &&& m.quantity_changed == quantity_changed
    &&& m.reason == reason
    &&& m.unit_cost == unit_cost
    &&& m.unit_price == unit_price
    &&& m.note == note
    &&& m.position@ == position
    &&& m.created_at == now
}

/// How one existing entry changes when stock arrives: quantity up by
/// `quantity`, average cost blended exactly, one movement appended, and
/// the named batch grown or a fresh one inserted in FIFO position.
pub open spec fn stock_added(
    eo: LedgerEntry,
    en: LedgerEntry,
    quantity: u64,
    unit_cost: u64,
    reason: StockMovementReason,
    note: Option<String>,
    number: Seq<char>,
    position: Seq<char>,
    expiration: Option<u64>,
    now: u64,
    created: u64,
) -> bool {
    &&& en.tenant_id == eo.tenant_id
    &&& en.item_id == eo.item_id
    &&& en.location_id == eo.location_id
    &&& en.level.quantity == eo.level.quantity + quantity
    &&& en.level.reserved_quantity == eo.level.reserved_quantity
    &&& en.level.sale_price == eo.level.sale_price
    &&& en.level.low_stock_threshold == eo.level.low_stock_threshold
    &&& crate::ratio::ratio_eq(
        en.level.average_cost.num as int,
        en.level.average_cost.den as int,
        crate::ratio::blend_num(
            eo.level.quantity as int,
            eo.level.average_cost.num as int,
            eo.level.average_cost.den as int,
            quantity as int,
            unit_cost as int,
        ),
        crate::ratio::blend_den(
            eo.level.quantity as int,
            eo.level.average_cost.den as int,
            quantity as int,
        ),
    )
    &&& en.movements@.len() == eo.movements@.len() + 1
    &&& en.movements@.drop_last() == eo.movements@
    &&& movement_matches(
        en.movements@.last(),
        quantity as int,
        reason,
        Option::Some(unit_cost),
        Option::None,
        note,
        position,
        now,
    )
    &&& match batch_key_index(eo.batches@, number, position) {
        Option::Some(k) => en.batches@ == eo.batches@.update(
            k,
            InventoryBatch {
                quantity: (eo.batches@[k].quantity + quantity) as i64,
                ..eo.batches@[k]
            },
        ),
        Option::None => exists|p: int|
            #![auto]
            {
                &&& 0 <= p < en.batches@.len()
                &&& en.batches@.remove(p) == eo.batches@
                &&& en.batches@[p].batch_number@ == number
                &&& en.batches@[p].position@ == position
                &&& en.batches@[p].expiration_date == expiration
                &&& en.batches@[p].quantity == quantity
                &&& en.batches@[p].unit_cost == unit_cost
                &&& en.batches@[p].created_at == created
            },
    }
}

/// A fresh entry created by arriving stock: the level holds exactly the
/// arrival, one batch and one movement record it.
pub open spec fn stock_entry_fresh(
    en: LedgerEntry,
    tenant_id: u128,
    item_id: u128,
    location_id: u128,
    quantity: u64,
    unit_cost: u64,
    reason: StockMovementReason,
    note: Option<String>,
    number: Seq<char>,
    position: Seq<char>,
    expiration: Option<u64>,
    now: u64,
    created: u64,
) -> bool {
    &&& en.tenant_id == tenant_id
    &&& en.item_id == item_id
    &&& en.location_id == location_id
    &&& en.level.quantity == quantity
    &&& en.level.reserved_quantity == 0
    &&& en.level.sale_price is None
    &&& en.level.low_stock_threshold == 0
    &&& crate::ratio::ratio_eq(
        en.level.average_cost.num as int,
        en.level.average_cost.den as int,
        crate::ratio::blend_num(0, 0, 1, quantity as int, unit_cost as int),
        crate::ratio::blend_den(0, 1, quantity as int),
    )
    &&& en.movements@.len() == 1
    &&& movement_matches(
        en.movements@[0],
        quantity as int,
        reason,
        Option::Some(unit_cost),
        Option::None,
        note,
        position,
        now,
    )
    &&& en.batches@.len() == 1
    &&& en.batches@[0].batch_number@ == number
    &&& en.batches@[0].position@ == position
    &&& en.batches@[0].expiration_date == expiration
    &&& en.batches@[0].quantity == quantity
    &&& en.batches@[0].unit_cost == unit_cost
    &&& en.batches@[0].created_at == created
}

/// The machine bounds that adding stock must meet; `add_stock` fails
/// with `NumericOverflow` exactly when one is broken.
pub open spec fn add_stock_overflow(
    entries: Seq<LedgerEntry>,
    batch_seq: u64,
    tenant_id: u128,
    item_id: u128,
    location_id: u128,
    quantity: u64,
    unit_cost: u64,
    number: Seq<char>,
    position: Seq<char>,
) -> bool {
    ||| quantity > i64::MAX
    ||| match entry_index(entries, tenant_id, item_id, location_id) {
        Option::Some(j) => {
            let e = entries[j];
            ||| !in_i64(e.level.quantity + quantity)
            ||| !crate::ratio::blend_fits(
                e.level.quantity as int,
                e.level.average_cost.num as int,
                e.level.average_cost.den as int,
                quantity as int,
                unit_cost as int,
            )
            ||| match batch_key_index(e.batches@, number, position) {
                Option::Some(k) => !in_i64(e.batches@[k].quantity + quantity),
                Option::None => batch_seq == u64::MAX,
            }
        },
        Option::None => batch_seq == u64::MAX,
    }
}

impl InventoryLedger {
    /// Receive `quantity` units at `unit_cost` into (tenant, item,
    /// location): upsert the named batch (default lot "DEFAULT" at
    /// position "Geral"), blend the level's average cost exactly by the
    /// rule `(curQty*curAvg + incQty*incCost) / (curQty+incQty)`, raise
    /// the level quantity, and append one movement. A missing level is
    /// created. All of it happens, or — on a broken machine bound, the
    /// only failure — none of it.
    pub fn add_stock(
        &mut self,
        tenant_id: u128,
        item_id: u128,
        location_id: u128,
        quantity: u64,
        unit_cost: u64,
        reason: StockMovementReason,
        note: Option<String>,
        batch_number: Option<String>,
        expiration_date: Option<u64>,
        position: Option<String>,
        now: u64,
    ) -> (r: Result<(), Error>)
        requires
            old(self).wf(),
        ensures
            final(self).wf(),
            final(self).catalog == old(self).catalog,
            match r {
                Ok(()) => {
                    &&& !add_stock_overflow(
                        old(self).entries@,
                        old(self).batch_seq,
                        tenant_id,
                        item_id,
                        location_id,
                        quantity,
                        unit_cost,
                        chosen_number(batch_number),
                        chosen_position(position),
                    )
                    &&& match entry_index(old(self).entries@, tenant_id, item_id, location_id) {
                        Option::Some(j) => {
                            &&& final(self).entries@.len() == old(self).entries@.len()
                            &&& forall|k: int|
                                0 <= k < old(self).entries@.len() && k != j
                                    ==> final(self).entries@[k] == old(self).entries@[k]
                            &&& stock_added(
                                old(self).entries@[j],
                                final(self).entries@[j],
                                quantity,
                                unit_cost,
                                reason,
                                note,
                                chosen_number(batch_number),
                                chosen_position(position),
                                expiration_date,
                                now,
                                old(self).batch_seq,
                            )
                            &&& final(self).batch_seq == (match batch_key_index(
                                old(self).entries@[j].batches@,
                                chosen_number(batch_number),
                                chosen_position(position),
                            ) {
                                Option::Some(_) => old(self).batch_seq as int,
                                Option::None => old(self).batch_seq + 1,
                            })
                        },
                        Option::None => {
                            &&& final(self).entries@.len() == old(self).entries@.len() + 1
                            &&& final(self).entries@.drop_last() == old(self).entries@
                            &&& stock_entry_fresh(
                                final(self).entries@.last(),
                                tenant_id,
                                item_id,
                                location_id,
                                quantity,
                                unit_cost,
                                reason,
                                note,
                                chosen_number(batch_number),
                                chosen_position(position),
                                expiration_date,
                                now,
                                old(self).batch_seq,
                            )
                            &&& final(self).batch_seq == old(self).batch_seq + 1
                        },
                    }
                },
                Err(e) => {
                    &&& e == Error::NumericOverflow
                    &&& *final(self) == *old(self)
                    &&& add_stock_overflow(
                        old(self).entries@,
                        old(self).batch_seq,
                        tenant_id,
                        item_id,
                        location_id,
                        quantity,
                        unit_cost,
                        chosen_number(batch_number),
                        chosen_position(position),
                    )
                },
            },
    {
        if quantity > (i64::MAX as u64) {
            return Err(Error::NumericOverflow);
        }
        let number: String = match batch_number {
            Some(s) => s,
            None => "DEFAULT".to_owned(),
        };
        let pos: String = match position {
            Some(s) => s,
            None => "Geral".to_owned(),
        };
        match self.find_entry(tenant_id, item_id, location_id) {
            Some(j) => {
                let lvq = self.entries[j].level.quantity;
                if (lvq as i128) + (quantity as i128) > (i64::MAX as i128) {
                    return Err(Error::NumericOverflow);
                }
                let blended = match self.entries[j].level.average_cost.blended(
                    lvq,
                    quantity,
                    unit_cost,
                ) {
                    Ok(a) => a,
                    Err(e) => {
                        return Err(e);
                    },
                };
                let kopt = find_batch_key(&self.entries[j].batches, &number, &pos);
                match kopt {
                    Some(k) => {
                        let bq = self.entries[j].batches[k].quantity;
                        if (bq as i128) + (quantity as i128) > (i64::MAX as i128) {
                            return Err(Error::NumericOverflow);
                        }
                    },
                    None => {
                        if self.batch_seq == u64::MAX {
                            return Err(Error::NumericOverflow);
                        }
                    },
                }
                let ghost old_entries = self.entries@;
                let ghost old_seq = self.batch_seq;
                let mut e = self.entries.remove(j);
                let ghost eo = e;
                let inserted = match upsert_batch(
                    &mut e.batches,
                    number,
                    pos.clone(),
                    expiration_date,
                    quantity as i64,
                    unit_cost,
                    self.batch_seq,
                ) {
                    Ok(b) => b,
                    Err(_) => {
                        proof {
                            assert(false);
                        }
                        return Err(Error::NumericOverflow);
                    },
                };
                if inserted {
                    self.batch_seq = self.batch_seq + 1;
                }
                e.level.quantity = lvq + (quantity as i64);
                e.level.average_cost = blended;
                e.movements.push(
                    StockMovement {
                        quantity_changed: quantity as i64,
                        reason,
                        unit_cost: Some(unit_cost),
                        unit_price: None,
                        note,
                        position: pos,
                        created_at: now,
                    },
                );
                proof {
                    assert(e.movements@.drop_last() =~= eo.movements@);
                    assert(movement_total(e.movements@) == movement_total(eo.movements@)
                        + quantity);
                }
                proof {
                    assert(e.wf());
                }
                self.entries.insert(j, e);
                proof {
                    assert(self.entries@ =~= old_entries.update(j as int, e));
                    assert forall|k: int|
                        0 <= k < self.entries@.len() && k != j implies #[trigger] self.entries@[k]
                        == old_entries[k] by {}
                    assert(e.tenant_id == eo.tenant_id && e.item_id == eo.item_id
                        && e.location_id == eo.location_id);
                    assert forall|a: int, b: int|
                        0 <= a < b < self.entries@.len() implies !(
                    #[trigger] self.entries@[a]).key_matches(
                        (#[trigger] self.entries@[b]).tenant_id,
                        self.entries@[b].item_id,
                        self.entries@[b].location_id,
                    ) by {
                        assert(!old_entries[a].key_matches(
                            old_entries[b].tenant_id,
                            old_entries[b].item_id,
                            old_entries[b].location_id,
                        ));
                        assert(self.entries@[a].tenant_id == old_entries[a].tenant_id
                            && self.entries@[a].item_id == old_entries[a].item_id
                            && self.entries@[a].location_id == old_entries[a].location_id);
                        assert(self.entries@[b].tenant_id == old_entries[b].tenant_id
                            && self.entries@[b].item_id == old_entries[b].item_id
                            && self.entries@[b].location_id == old_entries[b].location_id);
                    }
                    assert forall|i: int|
                        0 <= i < self.entries@.len() implies batches_created_before(
                            (#[trigger] self.entries@[i]).batches@,
                            self.batch_seq as int,
                        ) by {
                        if i != j {
                            assert(batches_created_before(
                                old_entries[i].batches@,
                                old_seq as int,
                            ));
                        } else {
                            match batch_key_index(eo.batches@, number@, pos@) {
                                Option::Some(k) => {
                                    assert(batches_created_before(eo.batches@, old_seq as int));
                                    assert forall|b: int|
                                        0 <= b < e.batches@.len() implies (
                                    #[trigger] e.batches@[b]).created_at < old_seq by {
                                        assert(eo.batches@[b].created_at < old_seq);
                                    }
                                },
                                Option::None => {},
                            }
                        }
                    }
                }
                Ok(())
            },
            None => {
                if self.batch_seq == u64::MAX {
                    return Err(Error::NumericOverflow);
                }
                let blended = match AverageCost::zero().blended(0, quantity, unit_cost) {
                    Ok(a) => a,
                    Err(_) => {
                        proof {
                            assert(crate::ratio::blend_fits(
                                0,
                                0,
                                1,
                                quantity as int,
                                unit_cost as int,
                            )) by (nonlinear_arith)
                                requires
                                    0 <= quantity <= i64::MAX,
                                    0 <= unit_cost <= u64::MAX,
                            ;
                            assert(false);
                        }
                        return Err(Error::NumericOverflow);
                    },
                };
                let mut batches: Vec<InventoryBatch> = Vec::new();
                batches.push(
                    InventoryBatch {
                        batch_number: number,
                        position: pos.clone(),
                        expiration_date,
                        quantity: quantity as i64,
                        unit_cost,
                        created_at: self.batch_seq,
                    },
                );
                let mut movements: Vec<StockMovement> = Vec::new();
                movements.push(
                    StockMovement {
                        quantity_changed: quantity as i64,
                        reason,
                        unit_cost: Some(unit_cost),
                        unit_price: None,
                        note,
                        position: pos,
                        created_at: now,
                    },
                );
                let e = LedgerEntry {
                    tenant_id,
                    item_id,
                    location_id,
                    level: InventoryLevel {
                        quantity: quantity as i64,
                        reserved_quantity: 0,
                        average_cost: blended,
                        sale_price: None,
                        low_stock_threshold: 0,
                    },
                    batches,
                    movements,
                };
                proof {
                    assert(e.movements@.len() == 1);
                    assert(e.movements@.drop_last() =~= Seq::<StockMovement>::empty());
                    assert(movement_total(e.movements@.drop_last()) == 0);
                    assert(movement_total(e.movements@) == e.movements@.last().quantity_changed);
                }
                let ghost old_entries = self.entries@;
                self.entries.push(e);
                self.batch_seq = self.batch_seq + 1;
                proof {
                    assert(self.entries@.drop_last() =~= old_entries);
                    assert forall|a: int, b: int|
                        0 <= a < b < self.entries@.len() implies !(
                    #[trigger] self.entries@[a]).key_matches(
                        (#[trigger] self.entries@[b]).tenant_id,
                        self.entries@[b].item_id,
                        self.entries@[b].location_id,
                    ) by {
                        if b < old_entries.len() {
                            assert(self.entries@[a] == old_entries[a]);
                            assert(self.entries@[b] == old_entries[b]);
                            assert(!old_entries[a].key_matches(
                                old_entries[b].tenant_id,
                                old_entries[b].item_id,
                                old_entries[b].location_id,
                            ));
                        } else {
                            assert(self.entries@[a] == old_entries[a]);
                            assert(self.entries@[b] == e);
                            assert(!old_entries[a].key_matches(tenant_id, item_id, location_id));
                        }
                    }
                    assert forall|i: int|
                        0 <= i < self.entries@.len() implies batches_created_before(
                            (#[trigger] self.entries@[i]).batches@,
                            self.batch_seq as int,
                        ) by {
                        if i < old_entries.len() {
                            assert(self.entries@[i] == old_entries[i]);
                            assert(batches_created_before(
                                old_entries[i].batches@,
                                old(self).batch_seq as int,
                            ));
                        }
                    }
                }
                Ok(())
            },
        }
    }
}

/// The position label recorded by a sale: the targeted position for a
/// batch-specific sale, or the FIFO marker when the batches were walked.
pub open spec fn sold_position(
    specific_number: Option<String>,
    specific_position: Option<String>,
) -> Seq<char> {
    match specific_number {
        Option::Some(_) => chosen_position(specific_position),
        Option::None => "Vários/FIFO"@,
    }
}

/// How one entry changes when a sale goes through: the level falls by
/// the sold quantity (and the reservation too, when consumed), one Sale
/// movement is appended, and either the named batch is drained or FIFO
/// consumption walks the batches.
pub open spec fn stock_sold(
    eo: LedgerEntry,
    en: LedgerEntry,
    quantity: u64,
    unit_price: u64,
    consume_reservation: bool,
    note: Option<String>,
    specific_number: Option<String>,
    specific_position: Option<String>,
    now: u64,
    created: u64,
) -> bool {
    &&& en.tenant_id == eo.tenant_id
    &&& en.item_id == eo.item_id
    &&& en.location_id == eo.location_id
    &&& en.level.quantity == eo.level.quantity - quantity
    &&& en.level.reserved_quantity == eo.level.reserved_quantity - (if consume_reservation {
        quantity as int
    } else {
        0
    })
    &&& en.level.average_cost == eo.level.average_cost
    &&& en.level.sale_price == eo.level.sale_price
    &&& en.level.low_stock_threshold == eo.level.low_stock_threshold
    &&& en.movements@.len() == eo.movements@.len() + 1
    &&& en.movements@.drop_last() == eo.movements@
    &&& movement_matches(
        en.movements@.last(),
        -(quantity as int),
        StockMovementReason::Sale,
        Option::None,
        Option::Some(unit_price),
        note,
        sold_position(specific_number, specific_position),
        now,
    )
    &&& match specific_number {
        Option::Some(number) => match batch_key_index(
            eo.batches@,
            number@,
            chosen_position(specific_position),
        ) {
            Option::Some(k) => en.batches@ == eo.batches@.update(
                k,
                InventoryBatch {
                    quantity: (eo.batches@[k].quantity - quantity) as i64,
                    ..eo.batches@[k]
                },
            ),
            Option::None => exists|p: int|
                #![auto]
                {
                    &&& 0 <= p < en.batches@.len()
                    &&& en.batches@.remove(p) == eo.batches@
                    &&& en.batches@[p].batch_number@ == number@
                    &&& en.batches@[p].position@ == chosen_position(specific_position)
                    &&& en.batches@[p].expiration_date is None
                    &&& en.batches@[p].quantity == -(quantity as int)
                    &&& en.batches@[p].unit_cost == 0
                    &&& en.batches@[p].created_at == created
                },
        },
        Option::None => en.batches@ == crate::fifo::consume_result(eo.batches@, quantity as int),
    }
}

/// The machine bounds that a sale must meet; `sell_item` fails with
/// `NumericOverflow` exactly when one is broken.
pub open spec fn sell_overflow(
    e: LedgerEntry,
    batch_seq: u64,
    quantity: u64,
    consume_reservation: bool,
    specific_number: Option<String>,
    specific_position: Option<String>,
) -> bool {
    ||| quantity > i64::MAX
    ||| !in_i64(e.level.quantity - quantity)
    ||| (consume_reservation && !in_i64(e.level.reserved_quantity - quantity))
    ||| match specific_number {
        Option::Some(number) => match batch_key_index(
            e.batches@,
            number@,
            chosen_position(specific_position),
        ) {
            Option::Some(k) => !in_i64(e.batches@[k].quantity - quantity),
            Option::None => batch_seq == u64::MAX,
        },
        Option::None => false,
    }
}

impl InventoryLedger {
    /// Sell `quantity` units of (tenant, item, location) at `unit_price`.
    /// Fails with `InventoryLevelNotFound` when no level exists, and —
    /// unless the sale consumes a reservation — with `InsufficientStock`
    /// whenever the unreserved quantity on hand is short, in both cases
    /// changing nothing at all. Otherwise the level falls by the full
    /// quantity, the named batch is drained (created, below zero, if it
    /// does not exist), or, with no batch named, FIFO consumption walks
    /// the batches in expiration/creation order, and one aggregated Sale
    /// movement is appended; all of it happens, or — on a broken machine
    /// bound — none of it. The level falls by the full quantity even when
    /// the batches cannot cover it: they are merely drained to zero, and
    /// the shortfall stays visible in the batch records.
    pub fn sell_item(
        &mut self,
        tenant_id: u128,
        item_id: u128,
        location_id: u128,
        quantity: u64,
        unit_price: u64,
        consume_reservation: bool,
        note: Option<String>,
        specific_batch_number: Option<String>,
        specific_position: Option<String>,
        now: u64,
    ) -> (r: Result<(), Error>)
        requires
            old(self).wf(),
        ensures
            final(self).wf(),
            final(self).catalog == old(self).catalog,
            match r {
                Ok(()) => {
                    &&& entry_index(old(self).entries@, tenant_id, item_id, location_id) is Some
                    &&& {
                        let j = entry_index(
                            old(self).entries@,
                            tenant_id,
                            item_id,
                            location_id,
                        )->Some_0;
                        let eo = old(self).entries@[j];
                        &&& !(!consume_reservation && eo.level.quantity
                            - eo.level.reserved_quantity < quantity)
                        &&& !sell_overflow(
                            eo,
                            old(self).batch_seq,
                            quantity,
                            consume_reservation,
                            specific_batch_number,
                            specific_position,
                        )
                        &&& final(self).entries@.len() == old(self).entries@.len()
                        &&& forall|k: int|
                            0 <= k < old(self).entries@.len() && k != j ==> final(self).entries@[k]
                                == old(self).entries@[k]
                        &&& stock_sold(
                            eo,
                            final(self).entries@[j],
                            quantity,
                            unit_price,
                            consume_reservation,
                            note,
                            specific_batch_number,
                            specific_position,
                            now,
                            old(self).batch_seq,
                        )
                        &&& final(self).batch_seq == (match specific_batch_number {
                            Option::Some(number) => match batch_key_index(
                                eo.batches@,
                                number@,
                                chosen_position(specific_position),
                            ) {
                                Option::Some(_) => old(self).batch_seq as int,
                                Option::None => old(self).batch_seq + 1,
                            },
                            Option::None => old(self).batch_seq as int,
                        })
                    }
                },
                Err(Error::InventoryLevelNotFound) => {
                    &&& entry_index(old(self).entries@, tenant_id, item_id, location_id) is None
                    &&& *final(self) == *old(self)
                },
                Err(Error::InsufficientStock) => {
                    &&& entry_index(old(self).entries@, tenant_id, item_id, location_id) is Some
                    &&& {
                        let eo = old(self).entries@[entry_index(
                            old(self).entries@,
                            tenant_id,
                            item_id,
                            location_id,
                        )->Some_0];
                        !consume_reservation && eo.level.quantity - eo.level.reserved_quantity
                            < quantity
                    }
                    &&& *final(self) == *old(self)
                },
                Err(Error::NumericOverflow) => {
                    &&& entry_index(old(self).entries@, tenant_id, item_id, location_id) is Some
                    &&& {
                        let eo = old(self).entries@[entry_index(
                            old(self).entries@,
                            tenant_id,
                            item_id,
                            location_id,
                        )->Some_0];
                        &&& !(!consume_reservation && eo.level.quantity
                            - eo.level.reserved_quantity < quantity)
                        &&& sell_overflow(
                            eo,
                            old(self).batch_seq,
                            quantity,
                            consume_reservation,
                            specific_batch_number,
                            specific_position,
                        )
                    }
                    &&& *final(self) == *old(self)
                },
                _ => false,
            },
    {
        let j = match self.find_entry(tenant_id, item_id, location_id) {
            Some(j) => j,
            None => {
                return Err(Error::InventoryLevelNotFound);
            },
        };
        let lvq = self.entries[j].level.quantity;
        let lvr = self.entries[j].level.reserved_quantity;
        if !consume_reservation && (lvq as i128) - (lvr as i128) < (quantity as i128) {
            return Err(Error::InsufficientStock);
        }
        if quantity > (i64::MAX as u64) {
            return Err(Error::NumericOverflow);
        }
        if (lvq as i128) - (quantity as i128) < (i64::MIN as i128) {
            return Err(Error::NumericOverflow);
        }
        if consume_reservation && (lvr as i128) - (quantity as i128) < (i64::MIN as i128) {
            return Err(Error::NumericOverflow);
        }
        // Resolve the targeted batch, if the caller named one, before
        // any record changes.
        let target: Option<(String, String)> = match specific_batch_number {
            Some(number) => {
                let pos: String = match specific_position {
                    Some(s) => s,
                    None => "Geral".to_owned(),
                };
                match find_batch_key(&self.entries[j].batches, &number, &pos) {
                    Some(k) => {
                        let bq = self.entries[j].batches[k].quantity;
                        if (bq as i128) - (quantity as i128) < (i64::MIN as i128) {
                            return Err(Error::NumericOverflow);
                        }
                    },
                    None => {
                        if self.batch_seq == u64::MAX {
                            return Err(Error::NumericOverflow);
                        }
                    },
                }
                Some((number, pos))
            },
            None => None,
        };
        let ghost old_entries = self.entries@;
        let ghost old_seq = self.batch_seq;
        let mut e = self.entries.remove(j);
        let ghost eo = e;
        let position_label: String = match target {
            Some((number, pos)) => {
                let label = pos.clone();
                let inserted = match upsert_batch(
                    &mut e.batches,
                    number,
                    pos,
                    None,
                    -(quantity as i64),
                    0,
                    self.batch_seq,
                ) {
                    Ok(b) => b,
                    Err(_) => {
                        proof {
                            assert(false);
                        }
                        return Err(Error::NumericOverflow);
                    },
                };
                if inserted {
                    self.batch_seq = self.batch_seq + 1;
                }
                label
            },
            None => {
                crate::fifo::consume_batches(&mut e.batches, quantity);
                proof {
                    crate::fifo::lemma_consume_len(eo.batches@, quantity as int);
                    assert forall|b: int| 0 <= b < e.batches@.len() implies {
                        &&& (#[trigger] e.batches@[b]).batch_number@
                            == eo.batches@[b].batch_number@
                        &&& e.batches@[b].position@ == eo.batches@[b].position@
                        &&& e.batches@[b].expiration_date == eo.batches@[b].expiration_date
                        &&& e.batches@[b].created_at == eo.batches@[b].created_at
                    } by {
                        crate::fifo::lemma_consume_fields(eo.batches@, quantity as int, b);
                    }
                    assert forall|a: int, b: int|
                        0 <= a < b < e.batches@.len() implies fifo_before(
                        #[trigger] e.batches@[a],
                        #[trigger] e.batches@[b],
                    ) by {
                        assert(fifo_before(eo.batches@[a], eo.batches@[b]));
                    }
                    assert forall|a: int, b: int|
                        0 <= a < b < e.batches@.len() implies !((
                    #[trigger] e.batches@[a]).batch_number@ == (
                    #[trigger] e.batches@[b]).batch_number@ && e.batches@[a].position@
                        == e.batches@[b].position@) by {
                        assert(!(eo.batches@[a].batch_number@ == eo.batches@[b].batch_number@
                            && eo.batches@[a].position@ == eo.batches@[b].position@));
                    }
                    assert(batches_created_before(eo.batches@, old_seq as int));
                    assert forall|b: int|
                        0 <= b < e.batches@.len() implies (#[trigger] e.batches@[b]).created_at
                        < old_seq by {
                        assert(eo.batches@[b].created_at < old_seq);
                    }
                }
                "Vários/FIFO".to_owned()
            },
        };
        e.level.quantity = lvq - (quantity as i64);
        if consume_reservation {
            e.level.reserved_quantity = lvr - (quantity as i64);
        }
        e.movements.push(
            StockMovement {
                quantity_changed: -(quantity as i64),
                reason: StockMovementReason::Sale,
                unit_cost: None,
                unit_price: Some(unit_price),
                note,
                position: position_label,
                created_at: now,
            },
        );
        proof {
            assert(e.movements@.drop_last() =~= eo.movements@);
            assert(movement_total(e.movements@) == movement_total(eo.movements@) - quantity);
            assert(e.wf());
        }
        self.entries.insert(j, e);
        proof {
            assert(self.entries@ =~= old_entries.update(j as int, e));
            assert forall|k: int|
                0 <= k < self.entries@.len() && k != j implies #[trigger] self.entries@[k]
                == old_entries[k] by {}
            assert(e.tenant_id == eo.tenant_id && e.item_id == eo.item_id && e.location_id
                == eo.location_id);
            assert forall|a: int, b: int|
                0 <= a < b < self.entries@.len() implies !(
            #[trigger] self.entries@[a]).key_matches(
                (#[trigger] self.entries@[b]).tenant_id,
                self.entries@[b].item_id,
                self.entries@[b].location_id,
            ) by {
                assert(!old_entries[a].key_matches(
                    old_entries[b].tenant_id,
                    old_entries[b].item_id,
                    old_entries[b].location_id,
                ));
                assert(self.entries@[a].tenant_id == old_entries[a].tenant_id
                    && self.entries@[a].item_id == old_entries[a].item_id
                    && self.entries@[a].location_id == old_entries[a].location_id);
                assert(self.entries@[b].tenant_id == old_entries[b].tenant_id
                    && self.entries@[b].item_id == old_entries[b].item_id
                    && self.entries@[b].location_id == old_entries[b].location_id);
            }
            assert forall|i: int|
                0 <= i < self.entries@.len() implies batches_created_before(
                    (#[trigger] self.entries@[i]).batches@,
                    self.batch_seq as int,
                ) by {
                if i != j {
                    assert(batches_created_before(old_entries[i].batches@, old_seq as int));
                } else {
                    match specific_batch_number {
                        Option::Some(number) => {
                            match batch_key_index(
                                eo.batches@,
                                number@,
                                chosen_position(specific_position),
                            ) {
                                Option::Some(k) => {
                                    assert(batches_created_before(eo.batches@, old_seq as int));
                                    assert forall|b: int|
                                        0 <= b < e.batches@.len() implies (
                                    #[trigger] e.batches@[b]).created_at < old_seq by {
                                        assert(eo.batches@[b].created_at < old_seq);
                                    }
                                },
                                Option::None => {},
                            }
                        },
                        Option::None => {},
                    }
                }
            }
        }
        Ok(())
    }
}

/// Whether creating this item also creates stock: only a physical
/// product, with a location supplied and a positive opening quantity.
pub open spec fn stocks_on_create(
    kind: crate::catalog::ItemKind,
    location_id: Option<u128>,
    initial_stock: u64,
) -> bool {
    kind == crate::catalog::ItemKind::Product && location_id is Some && initial_stock > 0
}

/// How an existing entry changes when an item is created with opening
/// stock on it: quantity up, average cost set to the opening cost, the
/// location sale price and threshold set, one InitialStock movement,
/// and the default lot grown or created.
pub open spec fn initial_stocked(
    eo: LedgerEntry,
    en: LedgerEntry,
    initial_stock: u64,
    initial_cost: u64,
    sale_price: u64,
    low_stock_threshold: u64,
    now: u64,
    created: u64,
) -> bool {
    &&& en.tenant_id == eo.tenant_id
    &&& en.item_id == eo.item_id
    &&& en.location_id == eo.location_id
    &&& en.level.quantity == eo.level.quantity + initial_stock
    &&& en.level.reserved_quantity == eo.level.reserved_quantity
    &&& en.level.average_cost.num == initial_cost && en.level.average_cost.den == 1
    &&& en.level.sale_price == Option::Some(sale_price)
    &&& en.level.low_stock_threshold == low_stock_threshold
    &&& en.movements@.len() == eo.movements@.len() + 1
    &&& en.movements@.drop_last() == eo.movements@
    &&& movement_matches(
        en.movements@.last(),
        initial_stock as int,
        StockMovementReason::InitialStock,
        Option::Some(initial_cost),
        Option::None,
        Option::None,
        "Geral"@,
        now,
    )
    &&& match batch_key_index(eo.batches@, "DEFAULT"@, "Geral"@) {
        Option::Some(k) => en.batches@ == eo.batches@.update(
            k,
            InventoryBatch {
                quantity: (eo.batches@[k].quantity + initial_stock) as i64,
                ..eo.batches@[k]
            },
        ),
        Option::None => exists|p: int|
            #![auto]
            {
                &&& 0 <= p < en.batches@.len()
                &&& en.batches@.remove(p) == eo.batches@
                &&& en.batches@[p].batch_number@ == "DEFAULT"@
                &&& en.batches@[p].position@ == "Geral"@
                &&& en.batches@[p].expiration_date is None
                &&& en.batches@[p].quantity == initial_stock
                &&& en.batches@[p].unit_cost == initial_cost
                &&& en.batches@[p].created_at == created
            },
    }
}

/// A fresh entry created by an item's opening stock.
pub open spec fn initial_entry_fresh(
    en: LedgerEntry,
    tenant_id: u128,
    item_id: u128,
    location_id: u128,
    initial_stock: u64,
    initial_cost: u64,
    sale_price: u64,
    low_stock_threshold: u64,
    now: u64,
    created: u64,
) -> bool {
    &&& en.tenant_id == tenant_id
    &&& en.item_id == item_id
    &&& en.location_id == location_id
    &&& en.level.quantity == initial_stock
    &&& en.level.reserved_quantity == 0
    &&& en.level.average_cost.num == initial_cost && en.level.average_cost.den == 1
    &&& en.level.sale_price == Option::Some(sale_price)
    &&& en.level.low_stock_threshold == low_stock_threshold
    &&& en.movements@.len() == 1
    &&& movement_matches(
        en.movements@[0],
        initial_stock as int,
        StockMovementReason::InitialStock,
        Option::Some(initial_cost),
        Option::None,
        Option::None,
        "Geral"@,
        now,
    )
    &&& en.batches@.len() == 1
    &&& en.batches@[0].batch_number@ == "DEFAULT"@
    &&& en.batches@[0].position@ == "Geral"@
    &&& en.batches@[0].expiration_date is None
    &&& en.batches@[0].quantity == initial_stock
    &&& en.batches@[0].unit_cost == initial_cost
    &&& en.batches@[0].created_at == created
}

/// The machine bounds that creating opening stock must meet.
pub open spec fn create_stock_overflow(
    entries: Seq<LedgerEntry>,
    batch_seq: u64,
    tenant_id: u128,
    item_id: u128,
    location_id: u128,
    initial_stock: u64,
) -> bool {
    ||| initial_stock > i64::MAX
    ||| match entry_index(entries, tenant_id, item_id, location_id) {
        Option::Some(j) => {
            let e = entries[j];
            ||| !in_i64(e.level.quantity + initial_stock)
            ||| match batch_key_index(e.batches@, "DEFAULT"@, "Geral"@) {
                Option::Some(k) => !in_i64(e.batches@[k].quantity + initial_stock),
                Option::None => batch_seq == u64::MAX,
            }
        },
        Option::None => batch_seq == u64::MAX,
    }
}

impl InventoryLedger {
    /// Create a catalog item, and, only for a physical product with a
    /// location and a positive opening quantity, stock it: the default
    /// lot, the level (at the opening cost, sale price and threshold)
    /// and one InitialStock movement. The catalog row and all three
    /// stock writes happen together, or — on a duplicate SKU or a broken
    /// machine bound — none of them do.
    pub fn create_item(
        &mut self,
        tenant_id: u128,
        location_id: Option<u128>,
        category_id: Option<u128>,
        base_unit_id: u128,
        sku: String,
        name: String,
        description: Option<String>,
        kind: crate::catalog::ItemKind,
        settings: Option<serde_json::Value>,
        initial_stock: u64,
        initial_cost: u64,
        sale_price: u64,
        min_stock: Option<u64>,
        low_stock_threshold: u64,
        now: u64,
    ) -> (r: Result<u128, Error>)
        requires
            old(self).wf(),
        ensures
            final(self).wf(),
            match r {
                Ok(id) => {
                    &&& !crate::catalog::has_item_sku(old(self).catalog.items@, tenant_id, sku@)
                    &&& id == old(self).catalog.next_id
                    &&& final(self).catalog.items@.len() == old(self).catalog.items@.len() + 1
                    &&& final(self).catalog.items@.drop_last() == old(self).catalog.items@
                    &&& {
                        let it = final(self).catalog.items@.last();
                        &&& it.id == id
                        &&& it.tenant_id == tenant_id
                        &&& it.sku@ == sku@
                        &&& it.name@ == name@
                        &&& it.description == description
                        &&& it.kind == kind
                        &&& (settings is Some ==> it.settings == settings)
                        &&& it.settings is Some
                        &&& it.unit_id == base_unit_id
                        &&& it.category_id == category_id
                        &&& it.cost_price == Option::Some(initial_cost)
                        &&& it.sale_price == sale_price
                        &&& it.min_stock == min_stock
                    }
                    &&& final(self).catalog.next_id == old(self).catalog.next_id + 1
                    &&& final(self).catalog.units@ == old(self).catalog.units@
                    &&& final(self).catalog.categories@ == old(self).catalog.categories@
                    &&& final(self).catalog.compositions@ == old(self).catalog.compositions@
                    &&& if stocks_on_create(kind, location_id, initial_stock) {
                        let loc = location_id->Some_0;
                        match entry_index(old(self).entries@, tenant_id, id, loc) {
                            Option::Some(j) => {
                                &&& final(self).entries@.len() == old(self).entries@.len()
                                &&& forall|k: int|
                                    0 <= k < old(self).entries@.len() && k != j ==> final(self).entries@[k]
                                        == old(self).entries@[k]
                                &&& initial_stocked(
                                    old(self).entries@[j],
                                    final(self).entries@[j],
                                    initial_stock,
                                    initial_cost,
                                    sale_price,
                                    low_stock_threshold,
                                    now,
                                    old(self).batch_seq,
                                )
                            },
                            Option::None => {
                                &&& final(self).entries@.len() == old(self).entries@.len() + 1
                                &&& final(self).entries@.drop_last() == old(self).entries@
                                &&& initial_entry_fresh(
                                    final(self).entries@.last(),
                                    tenant_id,
                                    id,
                                    loc,
                                    initial_stock,
                                    initial_cost,
                                    sale_price,
                                    low_stock_threshold,
                                    now,
                                    old(self).batch_seq,
                                )
                            },
                        }
                    } else {
                        final(self).entries@ == old(self).entries@ && final(self).batch_seq == old(
                            self,
                        ).batch_seq
                    }
                },
                Err(Error::DuplicateSku) => {
                    &&& crate::catalog::has_item_sku(old(self).catalog.items@, tenant_id, sku@)
                    &&& *final(self) == *old(self)
                },
                Err(Error::NumericOverflow) => {
                    &&& !crate::catalog::has_item_sku(old(self).catalog.items@, tenant_id, sku@)
                    &&& *final(self) == *old(self)
                    &&& {
                        ||| old(self).catalog.next_id == u128::MAX
                        ||| (stocks_on_create(kind, location_id, initial_stock)
                            && create_stock_overflow(
                            old(self).entries@,
                            old(self).batch_seq,
                            tenant_id,
                            old(self).catalog.next_id,
                            location_id->Some_0,
                            initial_stock,
                        ))
                    }
                },
                _ => false,
            },
    {
        // Reject a duplicate SKU before anything is written.
        let n = self.catalog.items.len();
        let mut i: usize = 0;
        while i < n
            invariant
                *self == *old(self),
                old(self).wf(),
                n == self.catalog.items@.len(),
                i <= n,
                forall|j: int|
                    0 <= j < i ==> !((#[trigger] self.catalog.items@[j]).tenant_id == tenant_id
                        && self.catalog.items@[j].sku@ == sku@),
            decreases n - i,
        {
            if self.catalog.items[i].tenant_id == tenant_id && self.catalog.items[i].sku == sku {
                return Err(Error::DuplicateSku);
            }
            i += 1;
        }
        // Check every machine bound of the stock writes before the
        // catalog row is inserted, so failure stays all-or-nothing.
        let stocking = kind == crate::catalog::ItemKind::Product && location_id.is_some()
            && initial_stock > 0;
        let item_id = self.catalog.next_id;
        if stocking {
            let loc = *location_id.as_ref().unwrap();
            if initial_stock > (i64::MAX as u64) {
                return Err(Error::NumericOverflow);
            }
            match self.find_entry(tenant_id, item_id, loc) {
                Some(j) => {
                    let lvq = self.entries[j].level.quantity;
                    if (lvq as i128) + (initial_stock as i128) > (i64::MAX as i128) {
                        return Err(Error::NumericOverflow);
                    }
                    let number: String = "DEFAULT".to_owned();
                    let pos: String = "Geral".to_owned();
                    match find_batch_key(&self.entries[j].batches, &number, &pos) {
                        Some(k) => {
                            let bq = self.entries[j].batches[k].quantity;
                            if (bq as i128) + (initial_stock as i128) > (i64::MAX as i128) {
                                return Err(Error::NumericOverflow);
                            }
                        },
                        None => {
                            if self.batch_seq == u64::MAX {
                                return Err(Error::NumericOverflow);
                            }
                        },
                    }
                },
                None => {
                    if self.batch_seq == u64::MAX {
                        return Err(Error::NumericOverflow);
                    }
                },
            }
        }
        let id = match self.catalog.create_item(
            tenant_id,
            sku,
            name,
            description,
            kind,
            settings,
            base_unit_id,
            category_id,
            Some(initial_cost),
            sale_price,
            min_stock,
        ) {
            Ok(id) => id,
            Err(Error::DuplicateSku) => {
                proof {
                    assert(false);
                }
                return Err(Error::DuplicateSku);
            },
            Err(e) => {
                return Err(e);
            },
        };
        if !stocking {
            return Ok(id);
        }
        let loc = *location_id.as_ref().unwrap();
        let ghost old_entries = self.entries@;
        let ghost old_seq = self.batch_seq;
        match self.find_entry(tenant_id, item_id, loc) {
            Some(j) => {
                let mut e = self.entries.remove(j);
                let ghost eo = e;
                let lvq = e.level.quantity;
                let inserted = match upsert_batch(
                    &mut e.batches,
                    "DEFAULT".to_owned(),
                    "Geral".to_owned(),
                    None,
                    initial_stock as i64,
                    initial_cost,
                    self.batch_seq,
                ) {
                    Ok(b) => b,
                    Err(_) => {
                        proof {
                            assert(false);
                        }
                        return Err(Error::NumericOverflow);
                    },
                };
                if inserted {
                    self.batch_seq = self.batch_seq + 1;
                }
                e.level = InventoryLevel {
                    quantity: lvq + (initial_stock as i64),
                    reserved_quantity: e.level.reserved_quantity,
                    average_cost: AverageCost::from_units(initial_cost),
                    sale_price: Some(sale_price),
                    low_stock_threshold,
                };
                e.movements.push(
                    StockMovement {
                        quantity_changed: initial_stock as i64,
                        reason: StockMovementReason::InitialStock,
                        unit_cost: Some(initial_cost),
                        unit_price: None,
                        note: None,
                        position: "Geral".to_owned(),
                        created_at: now,
                    },
                );
                proof {
                    assert(e.movements@.drop_last() =~= eo.movements@);
                    assert(movement_total(e.movements@) == movement_total(eo.movements@)
                        + initial_stock);
                    assert(e.wf());
                }
                self.entries.insert(j, e);
                proof {
                    assert(self.entries@ =~= old_entries.update(j as int, e));
                    assert forall|k: int|
                        0 <= k < self.entries@.len() && k != j implies #[trigger] self.entries@[k]
                        == old_entries[k] by {}
                    assert(e.tenant_id == eo.tenant_id && e.item_id == eo.item_id
                        && e.location_id == eo.location_id);
                    assert forall|a: int, b: int|
                        0 <= a < b < self.entries@.len() implies !(
                    #[trigger] self.entries@[a]).key_matches(
                        (#[trigger] self.entries@[b]).tenant_id,
                        self.entries@[b].item_id,
                        self.entries@[b].location_id,
                    ) by {
                        assert(!old_entries[a].key_matches(
                            old_entries[b].tenant_id,
                            old_entries[b].item_id,
                            old_entries[b].location_id,
                        ));
                        assert(self.entries@[a].tenant_id == old_entries[a].tenant_id
                            && self.entries@[a].item_id == old_entries[a].item_id
                            && self.entries@[a].location_id == old_entries[a].location_id);
                        assert(self.entries@[b].tenant_id == old_entries[b].tenant_id
                            && self.entries@[b].item_id == old_entries[b].item_id
                            && self.entries@[b].location_id == old_entries[b].location_id);
                    }
                    assert forall|i2: int|
                        0 <= i2 < self.entries@.len() implies batches_created_before(
                            (#[trigger] self.entries@[i2]).batches@,
                            self.batch_seq as int,
                        ) by {
                        if i2 != j {
                            assert(batches_created_before(old_entries[i2].batches@, old_seq as int));
                        } else {
                            match batch_key_index(eo.batches@, "DEFAULT"@, "Geral"@) {
                                Option::Some(k) => {
                                    assert(batches_created_before(eo.batches@, old_seq as int));
                                    assert forall|b: int|
                                        0 <= b < e.batches@.len() implies (
                                    #[trigger] e.batches@[b]).created_at < old_seq by {
                                        assert(eo.batches@[b].created_at < old_seq);
                                    }
                                },
                                Option::None => {},
                            }
                        }
                    }
                }
                Ok(id)
            },
            None => {
                let mut batches: Vec<InventoryBatch> = Vec::new();
                batches.push(
                    InventoryBatch {
                        batch_number: "DEFAULT".to_owned(),
                        position: "Geral".to_owned(),
                        expiration_date: None,
                        quantity: initial_stock as i64,
                        unit_cost: initial_cost,
                        created_at: self.batch_seq,
                    },
                );
                let mut movements: Vec<StockMovement> = Vec::new();
                movements.push(
                    StockMovement {
                        quantity_changed: initial_stock as i64,
                        reason: StockMovementReason::InitialStock,
                        unit_cost: Some(initial_cost),
                        unit_price: None,
                        note: None,
                        position: "Geral".to_owned(),
                        created_at: now,
                    },
                );
                let e = LedgerEntry {
                    tenant_id,
                    item_id,
                    location_id: loc,
                    level: InventoryLevel {
                        quantity: initial_stock as i64,
                        reserved_quantity: 0,
                        average_cost: AverageCost::from_units(initial_cost),
                        sale_price: Some(sale_price),
                        low_stock_threshold,
                    },
                    batches,
                    movements,
                };
                proof {
                    assert(e.movements@.len() == 1);
                    assert(e.movements@.drop_last() =~= Seq::<StockMovement>::empty());
                    assert(movement_total(e.movements@.drop_last()) == 0);
                    assert(movement_total(e.movements@) == e.movements@.last().quantity_changed);
                    assert(e.wf());
                }
                self.entries.push(e);
                self.batch_seq = self.batch_seq + 1;
                proof {
                    assert(self.entries@.drop_last() =~= old_entries);
                    assert forall|a: int, b: int|
                        0 <= a < b < self.entries@.len() implies !(
                    #[trigger] self.entries@[a]).key_matches(
                        (#[trigger] self.entries@[b]).tenant_id,
                        self.entries@[b].item_id,
                        self.entries@[b].location_id,
                    ) by {
                        if b < old_entries.len() {
                            assert(self.entries@[a] == old_entries[a]);
                            assert(self.entries@[b] == old_entries[b]);
                            assert(!old_entries[a].key_matches(
                                old_entries[b].tenant_id,
                                old_entries[b].item_id,
                                old_entries[b].location_id,
                            ));
                        } else {
                            assert(self.entries@[a] == old_entries[a]);
                            assert(self.entries@[b] == e);
                            assert(!old_entries[a].key_matches(tenant_id, item_id, loc));
                        }
                    }
                    assert forall|i2: int|
                        0 <= i2 < self.entries@.len() implies batches_created_before(
                            (#[trigger] self.entries@[i2]).batches@,
                            self.batch_seq as int,
                        ) by {
                        if i2 < old_entries.len() {
                            assert(self.entries@[i2] == old_entries[i2]);
                            assert(batches_created_before(
                                old_entries[i2].batches@,
                                old_seq as int,
                            ));
                        }
                    }
                }
                Ok(id)
            },
        }
    }
}

/// The batches of one entry that FIFO consumption would walk: those
/// with a positive quantity, in consumption order.
pub open spec fn consumable_batches(s: Seq<InventoryBatch>) -> Seq<InventoryBatch> {
    s.filter(|b: InventoryBatch| b.quantity > 0)
}

impl LedgerEntry {
    /// The batches a FIFO sale would walk, soonest expiration first.
    pub fn get_batches_for_consumption(&self) -> (r: Vec<InventoryBatch>)
        ensures
            r@ == consumable_batches(self.batches@),
    {
        let n = self.batches.len();
        let mut out: Vec<InventoryBatch> = Vec::new();
        let mut i: usize = 0;
        proof {
            assert(self.batches@.subrange(0, 0) =~= Seq::<InventoryBatch>::empty());
            reveal(Seq::filter);
        }
        while i < n
            invariant
                n == self.batches@.len(),
                i <= n,
                out@ == consumable_batches(self.batches@.subrange(0, i as int)),
            decreases n - i,
        {
            proof {
                reveal(Seq::filter);
                let pre = self.batches@.subrange(0, i as int);
                let nxt = self.batches@.subrange(0, i as int + 1);
                assert(nxt.drop_last() =~= pre);
                assert(nxt.last() == self.batches@[i as int]);
            }
            if self.batches[i].quantity > 0 {
                let b = self.batches[i].clone();
                proof {
                    assert(b == self.batches@[i as int]);
                }
                out.push(b);
            }
            i += 1;
        }
        proof {
            assert(self.batches@.subrange(0, n as int) =~= self.batches@);
        }
        out
    }
}

} // verus!

