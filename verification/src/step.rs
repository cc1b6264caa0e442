//! One step of a price: the bounds that a new price is held to, and the
//! arithmetic that checks them.
//!
//! A price moves to the product of itself and the factor of the step, as the
//! decimal arithmetic gives that product. The product is taken only where it
//! lies within one hundredth of the price, give or take one hundredth for
//! what the arithmetic rounds; else the price stays. No price goes below the
//! floor.

use crate::decimal::{pow10, value_lt, view_of, Decimal};
use vstd::prelude::*;

verus! {

/// The price below which no price falls: 1.00.
pub open spec fn min_price() -> (int, nat) {
    (100, 2)
}

/// The largest change of a price in one step, as a part of the price: 0.01.
pub open spec fn max_price_change() -> (int, nat) {
    (1, 2)
}

/// The larger of a price and the floor.
pub open spec fn floored(price: (int, nat)) -> (int, nat) {
    if value_lt(price, min_price()) {
        min_price()
    } else {
        price
    }
}

/// The number `a.0 / 10^a.1` counted in units of `10^-to`, for a `to` that
/// is not smaller than its scale.
pub open spec fn scaled(a: (int, nat), to: nat) -> int {
    a.0 * pow10((to - a.1) as nat)
}

/// How far two numbers lie apart.
pub open spec fn distance(x: int, y: int) -> int {
    if x >= y {
        x - y
    } else {
        y - x
    }
}

/// The larger of the scales of two decimals.
pub open spec fn common_scale(a: (int, nat), b: (int, nat)) -> nat {
    if a.1 >= b.1 {
        a.1
    } else {
        b.1
    }
}

/// Whether `next` lies within the largest change of `prev`, give or take the
/// rounding tolerance, with both counted in units of `10^-to`: a hundred
/// times their distance is at most `prev` and one.
pub open spec fn within_change_at(prev: (int, nat), next: (int, nat), to: nat) -> bool {
    100 * distance(scaled(next, to), scaled(prev, to)) <= scaled(prev, to) + pow10(to)
}

/// Whether `next` differs from `prev` by no more than one hundredth of
/// `prev` and one hundredth: `|next - prev| <= 0.01 * prev + 0.01`.
pub open spec fn within_change(prev: (int, nat), next: (int, nat)) -> bool {
    within_change_at(prev, next, common_scale(prev, next))
}

/// The price that follows `prev`, given the product of `prev` and the
/// factor of the step, or nothing where the arithmetic gave no product. The
/// product is taken where it lies within the bounds of a step; else the
/// price stays. Either way the price is not less than the floor.
pub open spec fn settled(prev: (int, nat), product: Option<(int, nat)>) -> (int, nat) {
    match product {
        Some(product) => if within_change(prev, product) {
            floored(product)
        } else {
            floored(prev)
        },
        None => floored(prev),
    }
}

/// The largest count that the check of a step works with: `10^30`.
pub const COUNT_LIMIT: i128 = 1_000_000_000_000_000_000_000_000_000_000;

pub proof fn lemma_pow10_positive(n: nat)
    ensures
        pow10(n) > 0,
    decreases n,
{
    if n > 0 {
        lemma_pow10_positive((n - 1) as nat);
    }
}

pub proof fn lemma_pow10_add(a: nat, b: nat)
    ensures
        pow10(a + b) == pow10(a) * pow10(b),
    decreases a,
{
    if a > 0 {
        lemma_pow10_add((a - 1) as nat, b);
        assert(pow10(a + b) == 10 * pow10((a + b - 1) as nat));
        assert(10 * (pow10((a - 1) as nat) * pow10(b)) == (10 * pow10((a - 1) as nat)) * pow10(b))
            by (nonlinear_arith);
    } else {
        assert(pow10(a) * pow10(b) == pow10(b)) by (nonlinear_arith)
            requires
                pow10(a) == 1,
        ;
    }
}

proof fn lemma_pow10_grows(a: nat, b: nat)
    requires
        a <= b,
    ensures
        pow10(a) <= pow10(b),
    decreases b - a,
{
    if a < b {
        lemma_pow10_grows(a, (b - 1) as nat);
        lemma_pow10_positive((b - 1) as nat);
    }
}

proof fn lemma_pow10_of_28()
    ensures
        pow10(28) == 10_000_000_000_000_000_000_000_000_000,
{
    reveal_with_fuel(pow10, 29);
}

/// Two decimals compare as their counts in a common unit do.
pub proof fn lemma_scaled_order(a: (int, nat), b: (int, nat), to: nat)
    requires
        to >= a.1,
        to >= b.1,
    ensures
        value_lt(a, b) <==> scaled(a, to) < scaled(b, to),
{
    let ka = pow10(a.1) as int;
    let kb = pow10(b.1) as int;
    let sa = pow10((to - a.1) as nat) as int;
    let sb = pow10((to - b.1) as nat) as int;
    let kt = pow10(to) as int;
    lemma_pow10_positive(a.1);
    lemma_pow10_positive(b.1);
    lemma_pow10_positive(to);
    lemma_pow10_add((to - a.1) as nat, a.1);
    lemma_pow10_add((to - b.1) as nat, b.1);
    assert(sa * ka == kt);
    assert(sb * kb == kt);
    let x = a.0;
    let y = b.0;
    assert((x * sa) * (ka * kb) == (x * kb) * kt) by (nonlinear_arith)
        requires
            sa * ka == kt,
    ;
    assert((y * sb) * (ka * kb) == (y * ka) * kt) by (nonlinear_arith)
        requires
            sb * kb == kt,
    ;
    assert((x * sa < y * sb) <==> ((x * sa) * (ka * kb) < (y * sb) * (ka * kb)))
        by (nonlinear_arith)
        requires
            ka > 0,
            kb > 0,
    ;
    assert(((x * kb) * kt < (y * ka) * kt) <==> (x * kb < y * ka)) by (nonlinear_arith)
        requires
            kt > 0,
    ;
}

/// The bounds of a step say the same in every unit that is fine enough for
/// both decimals.
pub proof fn lemma_within_change_scales(prev: (int, nat), next: (int, nat), to: nat)
    requires
        to >= prev.1,
        to >= next.1,
    ensures
        within_change(prev, next) <==> within_change_at(prev, next, to),
{
    let c = common_scale(prev, next);
    let k = pow10((to - c) as nat) as int;
    let p = scaled(prev, c);
    let n = scaled(next, c);
    let u = pow10(c) as int;
    lemma_pow10_positive((to - c) as nat);
    lemma_pow10_add((c - prev.1) as nat, (to - c) as nat);
    lemma_pow10_add((c - next.1) as nat, (to - c) as nat);
    lemma_pow10_add(c, (to - c) as nat);
    let fp = pow10((c - prev.1) as nat) as int;
    let fness = pow10((c - next.1) as nat) as int;
    assert(scaled(prev, to) == p * k) by (nonlinear_arith)
        requires
            scaled(prev, to) == prev.0 * (fp * k),
            p == prev.0 * fp,
    ;
    assert(scaled(next, to) == n * k) by (nonlinear_arith)
        requires
            scaled(next, to) == next.0 * (fness * k),
            n == next.0 * fness,
    ;
    assert(pow10(to) == u * k);
    let d = distance(n, p);
    assert(distance(n * k, p * k) == d * k) by (nonlinear_arith)
        requires
            k > 0,
            d == distance(n, p),
    ;
    assert((100 * d <= p + u) <==> (100 * (d * k) <= p * k + u * k)) by (nonlinear_arith)
        requires
            k > 0,
    ;
}

/// Counts within the bounds of a step are small, where one of the two
/// decimals is counted in its own unit.
proof fn lemma_within_counts(p: int, n: int, u: int)
    requires
        -max_count() <= p <= max_count() || -max_count() <= n <= max_count(),
        1 <= u <= 10_000_000_000_000_000_000_000_000_000,
        100 * distance(n, p) <= p + u,
    ensures
        -COUNT_LIMIT <= p <= COUNT_LIMIT,
        -COUNT_LIMIT <= n <= COUNT_LIMIT,
{
}

/// The largest mantissa of a decimal.
pub open spec fn max_count() -> int {
    0xFFFF_FFFF_FFFF_FFFF_FFFF_FFFF
}

/// Ten to the power of `k`.
fn ten_to(k: u32) -> (r: i128)
    requires
        k <= 28,
    ensures
        r == pow10(k as nat),
        1 <= r <= 10_000_000_000_000_000_000_000_000_000,
{
    let mut r: i128 = 1;
    let mut i: u32 = 0;
    proof {
        lemma_pow10_of_28();
        lemma_pow10_grows(0, 28);
    }
    while i < k
        invariant
            i <= k <= 28,
            r == pow10(i as nat),
            1 <= r,
            pow10(28) == 10_000_000_000_000_000_000_000_000_000,
        decreases k - i,
    {
        proof {
            lemma_pow10_grows((i + 1) as nat, 28);
        }
        r = r * 10;
        i += 1;
    }
    proof {
        lemma_pow10_grows(k as nat, 28);
    }
    r
}

/// Whether `next` lies within the bounds of a step from `prev`.
pub fn is_within_change(prev: &Decimal, next: &Decimal) -> (r: bool)
    ensures
        r == within_change(prev@, next@),
{
    let mp = prev.mantissa();
    let sp = prev.scale();
    let mq = next.mantissa();
    let sq = next.scale();
    let to = if sp >= sq {
        sp
    } else {
        sq
    };
    let unit = ten_to(to);
    let kp = ten_to(to - sp);
    let kq = ten_to(to - sq);
    let ghost p = scaled(prev@, to as nat);
    let ghost n = scaled(next@, to as nat);
    proof {
        assert(to as nat == common_scale(prev@, next@));
        assert(p == mp * kp);
        assert(n == mq * kq);
        if sp >= sq {
            assert(kp == 1);
            assert(p == mp) by (nonlinear_arith)
                requires
                    p == mp * kp,
                    kp == 1,
            ;
        } else {
            assert(kq == 1);
            assert(n == mq) by (nonlinear_arith)
                requires
                    n == mq * kq,
                    kq == 1,
            ;
        }
        if within_change(prev@, next@) {
            lemma_within_counts(p, n, unit as int);
        }
    }
    let count_p = match mp.checked_mul(kp) {
        Some(v) => v,
        None => {
            return false;
        },
    };
    let count_n = match mq.checked_mul(kq) {
        Some(v) => v,
        None => {
            return false;
        },
    };
    if count_p > COUNT_LIMIT || count_p < -COUNT_LIMIT || count_n > COUNT_LIMIT || count_n
        < -COUNT_LIMIT {
        return false;
    }
    let apart = if count_n >= count_p {
        count_n - count_p
    } else {
        count_p - count_n
    };
    100 * apart <= count_p + unit
}

/// The price that follows `prev`, given the product of `prev` and the
/// factor of the step, or nothing where the arithmetic gave no product.
pub fn settle(prev: Decimal, product: Option<Decimal>) -> (r: Decimal)
    ensures
        r@ == settled(prev@, view_of(product)),
{
    let floor = Decimal::new(100, 2);
    match product {
        Some(p) => {
            if is_within_change(&prev, &p) {
                p.max(floor)
            } else {
                prev.max(floor)
            }
        },
        None => prev.max(floor),
    }
}

/// However often a price has taken a step, it is not below the floor: the
/// price that follows is at least the floor, whatever the price before and
/// whatever the arithmetic gave.
pub proof fn law_price_floor(prev: (int, nat), product: Option<(int, nat)>)
    ensures
        !value_lt(settled(prev, product), min_price()),
{
}

/// Between two steps a price changes by no more than the largest change,
/// one hundredth of the price, give or take the rounding tolerance of one
/// hundredth. It holds for every price that is not below the floor, and
/// whatever the arithmetic gave.
pub proof fn law_price_change(prev: (int, nat), product: Option<(int, nat)>)
    requires
        !value_lt(prev, min_price()),
    ensures
        within_change(prev, settled(prev, product)),
{
    let floor = min_price();
    let next = settled(prev, product);
    lemma_pow10_positive(prev.1);
    assert(pow10(2) == 100) by {
        reveal_with_fuel(pow10, 3);
    }
    assert(pow10(0) == 1);
    // The price is positive, for it is not below the floor.
    assert(prev.0 >= 0) by (nonlinear_arith)
        requires
            prev.0 * 100 >= 100 * pow10(prev.1),
            pow10(prev.1) > 0,
    ;
    if next == prev {
        assert(scaled(prev, prev.1) == prev.0) by (nonlinear_arith)
            requires
                scaled(prev, prev.1) == prev.0 * 1,
        ;
    } else if product is Some && next == product->0 {
    } else {
        // The product was taken and lies below the floor.
        let q = product->0;
        assert(next == floor);
        assert(within_change(prev, q));
        assert(value_lt(q, floor));
        let both = common_scale(prev, q);
        let to = if both >= 2 {
            both
        } else {
            2
        };
        lemma_within_change_scales(prev, q, to);
        lemma_within_change_scales(prev, floor, to);
        lemma_scaled_order(q, floor, to);
        lemma_scaled_order(prev, floor, to);
    }
}

} // verus!
