//! Stock batches (lots) and FIFO consumption.
//!
//! Batches of one stock level are kept sorted in consumption order: the
//! soonest expiration date first, dated batches before undated ones,
//! and, at the same date, the earlier-created batch first. A sale that
//! names no batch walks this order and drains each batch in turn until
//! the requested quantity is exhausted or the batches run out.

use vstd::prelude::*;

verus! {

/// One lot of an item at a location, keyed by (batch_number, position).
/// `created_at` is the ledger's creation sequence number; it is unique
/// across all batches and breaks ties between equal expiration dates.
pub struct InventoryBatch {
    pub batch_number: String,
    pub position: String,
    pub expiration_date: Option<u64>,
    pub quantity: i64,
    pub unit_cost: u64,
    pub created_at: u64,
}

impl Clone for InventoryBatch {
    /// An exact copy.
    fn clone(&self) -> (res: Self)
        ensures
            res == *self,
    {
        InventoryBatch {
            batch_number: self.batch_number.clone(),
            position: self.position.clone(),
            expiration_date: self.expiration_date,
            quantity: self.quantity,
            unit_cost: self.unit_cost,
            created_at: self.created_at,
        }
    }
}

/// The batch key (expiration, creation number) of the first argument
/// comes strictly earlier in consumption order: sooner expiration
/// first, dated before undated, earlier creation breaking ties.
pub open spec fn fifo_key_before(e1: Option<u64>, c1: u64, e2: Option<u64>, c2: u64) -> bool {
    match (e1, e2) {
        (Option::Some(x), Option::Some(y)) => x < y || (x == y && c1 < c2),
        (Option::Some(x), Option::None) => true,
        (Option::None, Option::Some(y)) => false,
        (Option::None, Option::None) => c1 < c2,
    }
}

/// Batch `a` is consumed strictly before batch `b`.
pub open spec fn fifo_before(a: InventoryBatch, b: InventoryBatch) -> bool {
    fifo_key_before(a.expiration_date, a.created_at, b.expiration_date, b.created_at)
}

/// The batches stand in consumption order.
pub open spec fn fifo_sorted(s: Seq<InventoryBatch>) -> bool {
    forall|i: int, j: int| 0 <= i < j < s.len() ==> fifo_before(#[trigger] s[i], #[trigger] s[j])
}

/// Two keys with distinct creation numbers are ordered one way or the
/// other.
pub proof fn lemma_fifo_key_total(e1: Option<u64>, c1: u64, e2: Option<u64>, c2: u64)
    requires
        c1 != c2,
    ensures
        fifo_key_before(e1, c1, e2, c2) || fifo_key_before(e2, c2, e1, c1),
{
}

/// Consumption order is transitive.
pub proof fn lemma_fifo_key_trans(
    e1: Option<u64>,
    c1: u64,
    e2: Option<u64>,
    c2: u64,
    e3: Option<u64>,
    c3: u64,
)
    requires
        fifo_key_before(e1, c1, e2, c2),
        fifo_key_before(e2, c2, e3, c3),
    ensures
        fifo_key_before(e1, c1, e3, c3),
{
}

/// How much FIFO consumption takes from one batch: nothing from a
/// drained batch or once nothing remains, otherwise as much of the
/// remainder as the batch holds.
pub open spec fn consume_take(b: InventoryBatch, remaining: int) -> int {
    if b.quantity <= 0 || remaining <= 0 {
        0
    } else if b.quantity >= remaining {
        remaining
    } else {
        b.quantity as int
    }
}

/// The batch with `take` units removed; every other field is kept.
pub open spec fn batch_minus(b: InventoryBatch, take: int) -> InventoryBatch {
    InventoryBatch { quantity: (b.quantity - take) as i64, ..b }
}

/// The batches after FIFO consumption of `remaining` units walks them
/// front to back.
pub open spec fn consume_result(s: Seq<InventoryBatch>, remaining: int) -> Seq<InventoryBatch>
    decreases s.len(),
{
    if s.len() == 0 {
        s
    } else {
        let take = consume_take(s[0], remaining);
        seq![batch_minus(s[0], take)] + consume_result(s.drop_first(), remaining - take)
    }
}

/// Consumption keeps the number of batches.
pub proof fn lemma_consume_len(s: Seq<InventoryBatch>, remaining: int)
    ensures
        consume_result(s, remaining).len() == s.len(),
    decreases s.len(),
{
    if s.len() > 0 {
        lemma_consume_len(s.drop_first(), remaining - consume_take(s[0], remaining));
    }
}

/// Consumption keeps every field of every batch except the quantity,
/// which never grows and never falls below zero if it was not negative.
pub proof fn lemma_consume_fields(s: Seq<InventoryBatch>, remaining: int, k: int)
    requires
        0 <= k < s.len(),
    ensures
        ({
            let r = consume_result(s, remaining);
            &&& r.len() == s.len()
            &&& r[k].batch_number == s[k].batch_number
            &&& r[k].position == s[k].position
            &&& r[k].expiration_date == s[k].expiration_date
            &&& r[k].unit_cost == s[k].unit_cost
            &&& r[k].created_at == s[k].created_at
            &&& r[k].quantity <= s[k].quantity
            &&& s[k].quantity >= 0 ==> r[k].quantity >= 0
        }),
    decreases s.len(),
{
    lemma_consume_len(s, remaining);
    if k > 0 {
        lemma_consume_fields(s.drop_first(), remaining - consume_take(s[0], remaining), k - 1);
    }
}

/// Consuming nothing changes nothing.
pub proof fn lemma_consume_nothing(s: Seq<InventoryBatch>, remaining: int)
    requires
        remaining <= 0,
    ensures
        consume_result(s, remaining) == s,
    decreases s.len(),
{
    if s.len() > 0 {
        lemma_consume_nothing(s.drop_first(), remaining);
        assert(batch_minus(s[0], 0) == s[0]);
        assert(consume_result(s, remaining) =~= s);
    }
}

/// FIFO ordering: if consumption took anything from a batch, every
/// batch standing earlier in consumption order was already drained to
/// zero (or held nothing to begin with).
pub proof fn lemma_fifo_drains_in_order(s: Seq<InventoryBatch>, remaining: int, i: int, j: int)
    requires
        remaining >= 0,
        0 <= i < j < s.len(),
        consume_result(s, remaining)[j].quantity < s[j].quantity,
    ensures
        consume_result(s, remaining)[i].quantity <= 0,
    decreases s.len(),
{
    lemma_consume_len(s, remaining);
    let take = consume_take(s[0], remaining);
    if remaining == 0 {
        lemma_consume_nothing(s, remaining);
        lemma_consume_fields(s, remaining, j);
        assert(false);
    } else {
        if i == 0 {
            if s[0].quantity <= 0 {
            } else if take == s[0].quantity {
            } else {
                // The head absorbed the whole remainder, so nothing was
                // left for any later batch.
                lemma_consume_nothing(s.drop_first(), remaining - take);
                assert(consume_result(s, remaining)[j] == s.drop_first()[j - 1]);
                assert(false);
            }
        } else {
            lemma_fifo_drains_in_order(s.drop_first(), remaining - take, i - 1, j - 1);
        }
    }
}

/// Walk the batches in consumption order, draining each positive batch
/// until the requested quantity is exhausted; exactly `consume_result`.
pub fn consume_batches(batches: &mut Vec<InventoryBatch>, quantity: u64)
    requires
        quantity <= i64::MAX,
    ensures
        final(batches)@ == consume_result(old(batches)@, quantity as int),
{
    let ghost orig = batches@;
    let n = batches.len();
    let mut remaining: i64 = quantity as i64;
    let mut i: usize = 0;
    proof {
        assert(orig.subrange(0, 0) =~= Seq::<InventoryBatch>::empty());
        assert(orig.subrange(0, n as int) =~= orig);
        assert(consume_result(orig, quantity as int) == batches@.subrange(0, 0) + consume_result(
            orig.subrange(0, n as int),
            remaining as int,
        ));
    }
    while i < n
        invariant
            n == batches@.len(),
            orig.len() == n,
            i <= n,
            0 <= remaining <= quantity <= i64::MAX,
            batches@.subrange(i as int, n as int) == orig.subrange(i as int, n as int),
            consume_result(orig, quantity as int) == batches@.subrange(0, i as int)
                + consume_result(orig.subrange(i as int, n as int), remaining as int),
        decreases n - i,
    {
        let ghost pre = batches@;
        let ghost suffix = orig.subrange(i as int, n as int);
        let bq = batches[i].quantity;
        let take: i64 = if bq <= 0 || remaining <= 0 {
            0
        } else if bq >= remaining {
            remaining
        } else {
            bq
        };
        proof {
            assert(suffix[0] == orig[i as int]);
            assert(batches@[i as int] == orig[i as int]);
            assert(take as int == consume_take(suffix[0], remaining as int));
        }
        let b = batches.remove(i);
        let updated = InventoryBatch {
            batch_number: b.batch_number,
            position: b.position,
            expiration_date: b.expiration_date,
            quantity: b.quantity - take,
            unit_cost: b.unit_cost,
            created_at: b.created_at,
        };
        batches.insert(i, updated);
        remaining = remaining - take;
        proof {
            assert(updated == batch_minus(suffix[0], take as int));
            assert(batches@ =~= pre.update(i as int, updated));
            assert(suffix.drop_first() =~= orig.subrange(i as int + 1, n as int));
            assert(consume_result(suffix, (remaining + take) as int) == seq![batch_minus(
                suffix[0],
                take as int,
            )] + consume_result(suffix.drop_first(), remaining as int));
            assert(batches@.subrange(0, i as int + 1) =~= pre.subrange(0, i as int).push(updated));
            assert(batches@.subrange(i as int + 1, n as int) =~= orig.subrange(
                i as int + 1,
                n as int,
            ));
            assert(consume_result(orig, quantity as int) =~= batches@.subrange(0, i as int + 1)
                + consume_result(orig.subrange(i as int + 1, n as int), remaining as int));
        }
        i += 1;
    }
    proof {
        assert(orig.subrange(n as int, n as int) =~= Seq::<InventoryBatch>::empty());
        assert(batches@.subrange(0, n as int) =~= batches@);
    }
}

} // verus!
