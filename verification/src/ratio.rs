//! Exact weighted-average cost.
//!
//! A stock level's average cost is kept as an exact rational number
//! `num / den` of integer minor units (cents), never as a rounded value.
//! Blending incoming stock into the average follows the ledger rule
//! `newAvg = (curQty * curAvg + incQty * incCost) / (curQty + incQty)`,
//! computed without loss: the result equals that quotient as a rational,
//! and is zero whenever the resulting quantity is not positive. Because
//! the arithmetic is exact, the average after a series of purchases is
//! the quantity-weighted mean of all of them, in any insertion order.

use crate::errors::Error;
use vstd::arithmetic::div_mod::{
    lemma_fundamental_div_mod, lemma_fundamental_div_mod_converse_div,
    lemma_fundamental_div_mod_converse_mod, lemma_mod_multiples_basic, lemma_mod_self_0,
};
use vstd::prelude::*;
use vstd::seq_lib::{commutative_foldr, group_to_multiset_ensures, lemma_fold_right_permutation};

verus! {

/// The rational `n1 / d1` equals the rational `n2 / d2`
/// (for positive denominators).
pub open spec fn ratio_eq(n1: int, d1: int, n2: int, d2: int) -> bool {
    n1 * d2 == n2 * d1
}

/// Greatest common divisor, by Euclid's rule.
pub open spec fn gcd(a: nat, b: nat) -> nat
    decreases b,
{
    if b == 0 {
        a
    } else {
        gcd(b, a % b)
    }
}

/// `gcd(a, b)` divides both arguments and is positive unless both are zero.
pub proof fn lemma_gcd_divides(a: nat, b: nat)
    ensures
        gcd(a, b) == 0 <==> a == 0 && b == 0,
        gcd(a, b) > 0 ==> a % gcd(a, b) == 0,
        gcd(a, b) > 0 ==> b % gcd(a, b) == 0,
    decreases b,
{
    if b == 0 {
        if a > 0 {
            lemma_mod_self_0(a as int);
        }
    } else {
        let r = a % b;
        lemma_gcd_divides(b, r);
        let g = gcd(b, r);
        assert(g > 0);
        lemma_fundamental_div_mod(a as int, b as int);
        lemma_fundamental_div_mod(b as int, g as int);
        lemma_fundamental_div_mod(r as int, g as int);
        let k = (b as int / g as int) * (a as int / b as int) + r as int / g as int;
        assert(a as int == k * g) by (nonlinear_arith)
            requires
                a as int == b as int * (a as int / b as int) + r,
                b as int == g as int * (b as int / g as int),
                r as int == g as int * (r as int / g as int),
                k == (b as int / g as int) * (a as int / b as int) + r as int / g as int,
        ;
        lemma_mod_multiples_basic(k, g as int);
    }
}

/// Euclid's algorithm; returns exactly the mathematical `gcd`.
pub fn gcd_u128(a: u128, b: u128) -> (g: u128)
    ensures
        g == gcd(a as nat, b as nat),
{
    let mut x = a;
    let mut y = b;
    while y != 0
        invariant
            gcd(x as nat, y as nat) == gcd(a as nat, b as nat),
        decreases y,
    {
        let r = x % y;
        x = y;
        y = r;
    }
    x
}

/// Exact average cost of a stock level: the rational `num / den`
/// in minor units per quantity unit.
#[derive(Clone, Copy, Debug, PartialEq, Eq, Structural)]
pub struct AverageCost {
    pub num: i128,
    pub den: i128,
}

impl AverageCost {
    /// A valid average cost has a positive denominator.
    pub open spec fn wf(self) -> bool {
        self.den >= 1
    }

    /// This cost equals the whole number `units` of minor units.
    pub open spec fn spec_is_units(self, units: int) -> bool {
        self.num == units * self.den
    }

    /// The cost of a level that holds no stock.
    pub fn zero() -> (r: AverageCost)
        ensures
            r.wf(),
            r.num == 0 && r.den == 1,
    {
        AverageCost { num: 0, den: 1 }
    }

    /// An exact cost of `units` minor units per quantity unit.
    pub fn from_units(units: u64) -> (r: AverageCost)
        ensures
            r.wf(),
            r.spec_is_units(units as int),
            r.num == units as int && r.den == 1,
    {
        AverageCost { num: units as i128, den: 1 }
    }

    /// Does this cost equal the whole number `units` of minor units?
    pub fn is_units(&self, units: u64) -> (r: bool)
        requires
            self.wf(),
        ensures
            r == self.spec_is_units(units as int),
    {
        self.is_ratio(units as i128, 1)
    }

    /// Does this cost equal the rational `num / den`? Exact for every
    /// input: the comparison never rounds and never overflows.
    pub fn is_ratio(&self, num: i128, den: i128) -> (r: bool)
        requires
            self.wf(),
            den >= 1,
        ensures
            r == ratio_eq(self.num as int, self.den as int, num as int, den as int),
    {
        let n1 = self.num;
        let d1 = self.den;
        if n1 == 0 || num == 0 {
            proof {
                lemma_zero_ratio(n1 as int, d1 as int, num as int, den as int);
            }
            n1 == 0 && num == 0
        } else if (n1 < 0) != (num < 0) {
            proof {
                lemma_sign_ratio(n1 as int, d1 as int, num as int, den as int);
            }
            false
        } else {
            let m1 = abs_i128(n1);
            let m2 = abs_i128(num);
            let r = frac_eq(m1, d1 as u128, m2, den as u128);
            proof {
                lemma_abs_ratio(n1 as int, d1 as int, num as int, den as int);
            }
            r
        }
    }
}

/// The magnitude of a signed value, as an unsigned one.
pub fn abs_i128(n: i128) -> (r: u128)
    ensures
        r == (if n >= 0 { n as int } else { -(n as int) }),
{
    if n >= 0 {
        n as u128
    } else {
        ((-(n + 1)) as u128) + 1
    }
}

/// A rational with numerator zero equals another exactly when that
/// numerator is zero too.
proof fn lemma_zero_ratio(n1: int, d1: int, n2: int, d2: int)
    requires
        d1 >= 1,
        d2 >= 1,
        n1 == 0 || n2 == 0,
    ensures
        ratio_eq(n1, d1, n2, d2) <==> (n1 == 0 && n2 == 0),
{
    assert(ratio_eq(n1, d1, n2, d2) <==> (n1 == 0 && n2 == 0)) by (nonlinear_arith)
        requires
            d1 >= 1,
            d2 >= 1,
            n1 == 0 || n2 == 0,
    ;
}

/// Rationals with positive denominators and strictly opposite signs differ.
proof fn lemma_sign_ratio(n1: int, d1: int, n2: int, d2: int)
    requires
        d1 >= 1,
        d2 >= 1,
        n1 != 0,
        n2 != 0,
        (n1 < 0) != (n2 < 0),
    ensures
        !ratio_eq(n1, d1, n2, d2),
{
    assert(n1 * d2 != n2 * d1) by (nonlinear_arith)
        requires
            d1 >= 1,
            d2 >= 1,
            n1 != 0,
            n2 != 0,
            (n1 < 0) != (n2 < 0),
    ;
}

/// Two rationals of the same strict sign are equal exactly when their
/// magnitudes are.
proof fn lemma_abs_ratio(n1: int, d1: int, n2: int, d2: int)
    requires
        d1 >= 1,
        d2 >= 1,
        n1 != 0,
        n2 != 0,
        (n1 < 0) == (n2 < 0),
    ensures
        ratio_eq(n1, d1, n2, d2) <==> ratio_eq(
            if n1 >= 0 { n1 } else { -n1 },
            d1,
            if n2 >= 0 { n2 } else { -n2 },
            d2,
        ),
{
    let m1 = if n1 >= 0 { n1 } else { -n1 };
    let m2 = if n2 >= 0 { n2 } else { -n2 };
    assert((n1 * d2 == n2 * d1) <==> (m1 * d2 == m2 * d1)) by (nonlinear_arith)
        requires
            m1 == (if n1 >= 0 { n1 } else { -n1 }),
            m2 == (if n2 >= 0 { n2 } else { -n2 }),
            (n1 < 0) == (n2 < 0),
    ;
}

/// One Euclidean step: two fractions with positive denominators are
/// equal exactly when their integer parts and their remainder fractions
/// both agree.
proof fn lemma_frac_eq_step(n1: int, d1: int, n2: int, d2: int)
    requires
        d1 >= 1,
        d2 >= 1,
        n1 >= 0,
        n2 >= 0,
    ensures
        ratio_eq(n1, d1, n2, d2) <==> (n1 / d1 == n2 / d2 && ratio_eq(n1 % d1, d1, n2 % d2, d2)),
{
    lemma_fundamental_div_mod(n1, d1);
    lemma_fundamental_div_mod(n2, d2);
    let q1 = n1 / d1;
    let r1 = n1 % d1;
    let q2 = n2 / d2;
    let r2 = n2 % d2;
    let dd = d1 * d2;
    assert(dd >= 1 && n1 * d2 == q1 * dd + r1 * d2 && 0 <= r1 * d2 < dd) by (nonlinear_arith)
        requires
            d1 >= 1,
            d2 >= 1,
            n1 == d1 * q1 + r1,
            0 <= r1 < d1,
            dd == d1 * d2,
    ;
    assert(n2 * d1 == q2 * dd + r2 * d1 && 0 <= r2 * d1 < dd) by (nonlinear_arith)
        requires
            d1 >= 1,
            d2 >= 1,
            n2 == d2 * q2 + r2,
            0 <= r2 < d2,
            dd == d1 * d2,
    ;
    lemma_fundamental_div_mod_converse_mod(n1 * d2, dd, q1, r1 * d2);
    lemma_fundamental_div_mod_converse_div(n1 * d2, dd, q1, r1 * d2);
    lemma_fundamental_div_mod_converse_mod(n2 * d1, dd, q2, r2 * d1);
    lemma_fundamental_div_mod_converse_div(n2 * d1, dd, q2, r2 * d1);
}

/// Exact equality of two non-negative fractions, by comparing continued
/// fractions; free of overflow for all inputs.
fn frac_eq(n1: u128, d1: u128, n2: u128, d2: u128) -> (r: bool)
    requires
        d1 >= 1,
        d2 >= 1,
    ensures
        r == ratio_eq(n1 as int, d1 as int, n2 as int, d2 as int),
    decreases d1,
{
    let q1 = n1 / d1;
    let r1 = n1 % d1;
    let q2 = n2 / d2;
    let r2 = n2 % d2;
    proof {
        lemma_frac_eq_step(n1 as int, d1 as int, n2 as int, d2 as int);
    }
    if q1 != q2 {
        false
    } else if r1 == 0 && r2 == 0 {
        proof {
            lemma_zero_ratio(r1 as int, d1 as int, r2 as int, d2 as int);
        }
        true
    } else if r1 == 0 || r2 == 0 {
        proof {
            lemma_zero_ratio(r1 as int, d1 as int, r2 as int, d2 as int);
        }
        false
    } else {
        // r1 / d1 == r2 / d2 exactly when the reciprocals agree,
        // and both cross products are the same either way round.
        let r = frac_eq(d1, r1, d2, r2);
        proof {
            assert(ratio_eq(r1 as int, d1 as int, r2 as int, d2 as int) == ratio_eq(
                d1 as int,
                r1 as int,
                d2 as int,
                r2 as int,
            )) by (nonlinear_arith);
        }
        r
    }
}

/// `x` lies in the `i128` range.
pub open spec fn in_i128(x: int) -> bool {
    i128::MIN <= x <= i128::MAX
}

/// Numerator of the blended average after `q` units at cost `c` join
/// `q0` units averaged at `n0 / d0`; zero when no stock results.
pub open spec fn blend_num(q0: int, n0: int, d0: int, q: int, c: int) -> int {
    if q0 + q <= 0 {
        0
    } else {
        q0 * n0 + q * c * d0
    }
}

/// Denominator of the blended average; one when no stock results.
pub open spec fn blend_den(q0: int, d0: int, q: int) -> int {
    if q0 + q <= 0 {
        1
    } else {
        d0 * (q0 + q)
    }
}

/// The machine bounds that the exact blend computation must meet:
/// every intermediate product and sum fits `i128`, and the raw
/// numerator is not the one value whose magnitude does not.
pub open spec fn blend_fits(q0: int, n0: int, d0: int, q: int, c: int) -> bool {
    q0 + q <= 0 || {
        &&& in_i128(q0 * n0)
        &&& in_i128(q * c)
        &&& in_i128(q * c * d0)
        &&& in_i128(q0 * n0 + q * c * d0)
        &&& q0 * n0 + q * c * d0 != i128::MIN
        &&& in_i128(d0 * (q0 + q))
    }
}

/// Divide numerator and denominator by their greatest common divisor.
/// The result is the same rational with a positive denominator.
fn reduce(num: i128, den: i128) -> (r: (i128, i128))
    requires
        den >= 1,
        num > i128::MIN,
    ensures
        r.1 >= 1,
        r.0 > i128::MIN,
        ratio_eq(num as int, den as int, r.0 as int, r.1 as int),
{
    let m = abs_i128(num);
    let du = den as u128;
    let g = gcd_u128(m, du);
    proof {
        lemma_gcd_divides(m as nat, du as nat);
        assert(g >= 1);
    }
    let mr = m / g;
    let dr = du / g;
    proof {
        lemma_fundamental_div_mod(m as int, g as int);
        lemma_fundamental_div_mod(du as int, g as int);
        assert(m as int == g as int * (mr as int) && du as int == g as int * (dr as int));
        assert(mr <= m && 1 <= dr <= du) by (nonlinear_arith)
            requires
                m as int == g as int * (mr as int),
                du as int == g as int * (dr as int),
                g >= 1,
                du >= 1,
                mr >= 0,
                dr >= 0,
        ;
    }
    let num_r: i128 = if num >= 0 {
        mr as i128
    } else {
        -(mr as i128)
    };
    proof {
        assert(num as int * (dr as int) == (num_r as int) * (den as int)) by (nonlinear_arith)
            requires
                m as int == g as int * (mr as int),
                den as int == g as int * (dr as int),
                num >= 0 ==> num as int == m as int && num_r as int == mr as int,
                num < 0 ==> num as int == -(m as int) && num_r as int == -(mr as int),
        ;
    }
    (num_r, dr as i128)
}

impl AverageCost {
    /// Blend `inc_qty` incoming units at `inc_cost` into this average of
    /// `cur_qty` units held: exactly the rational
    /// `(cur_qty * avg + inc_qty * inc_cost) / (cur_qty + inc_qty)`,
    /// or zero when the resulting quantity is not positive. Fails with
    /// `NumericOverflow` exactly when a bound of `blend_fits` is broken,
    /// and succeeds on every other input.
    pub fn blended(&self, cur_qty: i64, inc_qty: u64, inc_cost: u64) -> (r: Result<
        AverageCost,
        Error,
    >)
        requires
            self.wf(),
            self.num > i128::MIN,
        ensures
            match r {
                Ok(a) => {
                    &&& blend_fits(
                        cur_qty as int,
                        self.num as int,
                        self.den as int,
                        inc_qty as int,
                        inc_cost as int,
                    )
                    &&& a.wf()
                    &&& a.num > i128::MIN
                    &&& ratio_eq(
                        a.num as int,
                        a.den as int,
                        blend_num(
                            cur_qty as int,
                            self.num as int,
                            self.den as int,
                            inc_qty as int,
                            inc_cost as int,
                        ),
                        blend_den(cur_qty as int, self.den as int, inc_qty as int),
                    )
                },
                Err(e) => {
                    &&& e == Error::NumericOverflow
                    &&& !blend_fits(
                        cur_qty as int,
                        self.num as int,
                        self.den as int,
                        inc_qty as int,
                        inc_cost as int,
                    )
                },
            },
    {
        let total: i128 = cur_qty as i128 + inc_qty as i128;
        if total <= 0 {
            return Ok(AverageCost { num: 0, den: 1 });
        }
        let t1 = match (cur_qty as i128).checked_mul(self.num) {
            Some(v) => v,
            None => {
                return Err(Error::NumericOverflow);
            },
        };
        let qc = match (inc_qty as i128).checked_mul(inc_cost as i128) {
            Some(v) => v,
            None => {
                return Err(Error::NumericOverflow);
            },
        };
        let t2 = match qc.checked_mul(self.den) {
            Some(v) => v,
            None => {
                return Err(Error::NumericOverflow);
            },
        };
        let rn = match t1.checked_add(t2) {
            Some(v) => v,
            None => {
                return Err(Error::NumericOverflow);
            },
        };
        if rn == i128::MIN {
            return Err(Error::NumericOverflow);
        }
        let rd = match self.den.checked_mul(total) {
            Some(v) => v,
            None => {
                return Err(Error::NumericOverflow);
            },
        };
        proof {
            assert(rd >= 1) by (nonlinear_arith)
                requires
                    rd as int == self.den as int * (total as int),
                    self.den >= 1,
                    total >= 1,
            ;
        }
        let nd = reduce(rn, rd);
        Ok(AverageCost { num: nd.0, den: nd.1 })
    }
}

/// Blending the same purchase into rationally equal averages of the
/// same held quantity yields rationally equal averages.
pub proof fn lemma_blend_respects_ratio_eq(
    q0: int,
    n0: int,
    d0: int,
    n1: int,
    d1: int,
    q: int,
    c: int,
)
    requires
        d0 >= 1,
        d1 >= 1,
        ratio_eq(n0, d0, n1, d1),
    ensures
        ratio_eq(
            blend_num(q0, n0, d0, q, c),
            blend_den(q0, d0, q),
            blend_num(q0, n1, d1, q, c),
            blend_den(q0, d1, q),
        ),
{
    if q0 + q > 0 {
        let lhs = q0 * n0 + q * c * d0;
        let rhs = q0 * n1 + q * c * d1;
        assert(lhs * d1 == rhs * d0) by (nonlinear_arith)
            requires
                n0 * d1 == n1 * d0,
                lhs == q0 * n0 + q * c * d0,
                rhs == q0 * n1 + q * c * d1,
        ;
        assert(lhs * (d1 * (q0 + q)) == rhs * (d0 * (q0 + q))) by (nonlinear_arith)
            requires
                lhs * d1 == rhs * d0,
        ;
    }
}


/// One more purchase keeps the level's exact average on the spec-level
/// purchase fold: blending (q, c) into any rational equal to the fold's
/// average yields a rational equal to the fold extended by (q, c).
pub proof fn lemma_average_tracks_purchases(
    s: Seq<(int, int)>,
    num: int,
    den: int,
    q: int,
    c: int,
)
    requires
        den >= 1,
        avg_after(s).2 >= 1,
        ratio_eq(num, den, avg_after(s).1, avg_after(s).2),
    ensures
        avg_after(s.push((q, c))).0 == avg_after(s).0 + q,
        ratio_eq(
            blend_num(avg_after(s).0, num, den, q, c),
            blend_den(avg_after(s).0, den, q),
            avg_after(s.push((q, c))).1,
            avg_after(s.push((q, c))).2,
        ),
{
    assert(s.push((q, c)).drop_last() =~= s);
    assert(s.push((q, c)).last() == (q, c));
    lemma_blend_respects_ratio_eq(
        avg_after(s).0,
        num,
        den,
        avg_after(s).1,
        avg_after(s).2,
        q,
        c,
    );
}

/// The level state (quantity, average-cost numerator, denominator)
/// after a sequence of purchases `(quantity, unit cost)` lands on an
/// empty level.
pub open spec fn avg_after(s: Seq<(int, int)>) -> (int, int, int)
    decreases s.len(),
{
    if s.len() == 0 {
        (0, 0, 1)
    } else {
        let prior = avg_after(s.drop_last());
        let q = s.last().0;
        let c = s.last().1;
        (prior.0 + q, blend_num(prior.0, prior.1, prior.2, q, c), blend_den(prior.0, prior.2, q))
    }
}

/// Every purchase in the sequence brings a positive quantity.
pub open spec fn all_positive(s: Seq<(int, int)>) -> bool {
    forall|i: int| 0 <= i < s.len() ==> (#[trigger] s[i]).0 > 0
}

/// Total quantity purchased.
pub open spec fn sum_qty(s: Seq<(int, int)>) -> int
    decreases s.len(),
{
    if s.len() == 0 {
        0
    } else {
        sum_qty(s.drop_last()) + s.last().0
    }
}

/// Total value purchased: the sum of quantity times unit cost.
pub open spec fn sum_value(s: Seq<(int, int)>) -> int
    decreases s.len(),
{
    if s.len() == 0 {
        0
    } else {
        sum_value(s.drop_last()) + s.last().0 * s.last().1
    }
}

/// Average-cost correctness: after purchases `(q1,c1), (q2,c2), ...`
/// land on an empty level, the average cost equals the quantity-weighted
/// mean `sum(qi * ci) / sum(qi)` exactly.
pub proof fn lemma_average_is_weighted_mean(s: Seq<(int, int)>)
    requires
        all_positive(s),
    ensures
        avg_after(s).0 == sum_qty(s),
        avg_after(s).0 >= 0,
        s.len() > 0 ==> avg_after(s).0 > 0,
        avg_after(s).2 >= 1,
        ratio_eq(avg_after(s).1, avg_after(s).2, sum_value(s), sum_qty(s)),
    decreases s.len(),
{
    if s.len() > 0 {
        let p = s.drop_last();
        assert(all_positive(p)) by {
            assert(forall|i: int| 0 <= i < p.len() ==> p[i] == s[i]);
        }
        lemma_average_is_weighted_mean(p);
        let prior = avg_after(p);
        let q = s.last().0;
        let c = s.last().1;
        assert(s.last() == s[s.len() - 1]);
        assert(q > 0);
        assert(prior.2 * (prior.0 + q) >= 1) by (nonlinear_arith)
            requires
                prior.2 >= 1,
                prior.0 + q >= 1,
        ;
        assert((prior.0 * prior.1 + q * c * prior.2) * (sum_qty(p) + q) == (sum_value(p) + q * c) * (
        prior.2 * (prior.0 + q))) by (nonlinear_arith)
            requires
                prior.1 * sum_qty(p) == sum_value(p) * prior.2,
                prior.0 == sum_qty(p),
        ;
    }
}

/// Fold step that accumulates purchased quantity.
pub open spec fn qty_step() -> spec_fn((int, int), int) -> int {
    |p: (int, int), acc: int| acc + p.0
}

/// Fold step that accumulates purchased value.
pub open spec fn value_step() -> spec_fn((int, int), int) -> int {
    |p: (int, int), acc: int| acc + p.0 * p.1
}

proof fn lemma_sum_qty_fold(s: Seq<(int, int)>, b: int)
    ensures
        s.fold_right(qty_step(), b) == sum_qty(s) + b,
    decreases s.len(),
{
    if s.len() > 0 {
        lemma_sum_qty_fold(s.drop_last(), b + s.last().0);
    }
}

proof fn lemma_sum_value_fold(s: Seq<(int, int)>, b: int)
    ensures
        s.fold_right(value_step(), b) == sum_value(s) + b,
    decreases s.len(),
{
    if s.len() > 0 {
        lemma_sum_value_fold(s.drop_last(), b + s.last().0 * s.last().1);
    }
}

/// Purchase totals do not depend on the order of the purchases.
pub proof fn lemma_sums_ignore_order(s1: Seq<(int, int)>, s2: Seq<(int, int)>)
    requires
        s1.to_multiset() == s2.to_multiset(),
    ensures
        sum_qty(s1) == sum_qty(s2),
        sum_value(s1) == sum_value(s2),
{
    assert(commutative_foldr(qty_step()));
    assert(commutative_foldr(value_step()));
    lemma_fold_right_permutation(s1, s2, qty_step(), 0);
    lemma_fold_right_permutation(s1, s2, value_step(), 0);
    lemma_sum_qty_fold(s1, 0);
    lemma_sum_qty_fold(s2, 0);
    lemma_sum_value_fold(s1, 0);
    lemma_sum_value_fold(s2, 0);
}

/// Average-cost commutativity: the same purchases in any insertion
/// order leave the same quantity and the same exact average cost.
pub proof fn lemma_average_ignores_insertion_order(s1: Seq<(int, int)>, s2: Seq<(int, int)>)
    requires
        all_positive(s1),
        all_positive(s2),
        s1.to_multiset() == s2.to_multiset(),
    ensures
        avg_after(s1).0 == avg_after(s2).0,
        ratio_eq(avg_after(s1).1, avg_after(s1).2, avg_after(s2).1, avg_after(s2).2),
{
    broadcast use group_to_multiset_ensures;

    lemma_average_is_weighted_mean(s1);
    lemma_average_is_weighted_mean(s2);
    lemma_sums_ignore_order(s1, s2);
    assert(s1.to_multiset().len() == s2.to_multiset().len());
    if s1.len() == 0 {
        assert(s2.len() == 0);
    } else {
        assert(s2.len() > 0);
        let a1 = avg_after(s1);
        let a2 = avg_after(s2);
        let v = sum_value(s1);
        let q = sum_qty(s1);
        assert(a1.1 * a2.2 == a2.1 * a1.2) by (nonlinear_arith)
            requires
                a1.1 * q == v * a1.2,
                a2.1 * q == v * a2.2,
                q > 0,
        ;
    }
}

} // verus!

