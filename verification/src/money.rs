//! The pricing calculator.
//!
//! All catalog prices are exact decimals with at most two fractional digits,
//! held as integer minor units (cents); discounts are percentages with at
//! most two fractional digits, held as integer basis points (hundredths of a
//! percent). A discounted unit price `price * (1 - discount/100)` therefore
//! has at most six fractional digits and is held exactly in millionths of a
//! currency unit ("micros"). The order amount is the sum of the line totals
//! plus a fixed delivery surcharge, converted to minor units exactly once, by
//! truncation.

use vstd::prelude::*;

use crate::errors::AppError;

verus! {

/// The fixed delivery surcharge: 5 currency units, in micros.
pub const DELIVERY_MICROS: u64 = 5_000_000;

/// Micros per minor currency unit.
pub const MICROS_PER_MINOR: u64 = 10_000;

/// Basis points in 100 percent.
pub const FULL_PRICE_BP: u32 = 10_000;

/// The discounted unit price, in micros: with the price in cents and the
/// discount in basis points, `price * (1 - discount/100)` scales to
/// `price_cents * (10000 - discount_bp)`.
pub open spec fn spec_unit_price_micros(price_cents: u64, discount_bp: u32) -> int {
    price_cents * (FULL_PRICE_BP - discount_bp)
}

/// Computes the discounted unit price in micros, or `None` on overflow.
pub fn unit_price_micros(price_cents: u64, discount_bp: u32) -> (r: Option<u64>)
    requires
        discount_bp <= FULL_PRICE_BP,
    ensures
        r == (if spec_unit_price_micros(price_cents, discount_bp) <= u64::MAX {
            Some(spec_unit_price_micros(price_cents, discount_bp) as u64)
        } else {
            None::<u64>
        }),
{
    price_cents.checked_mul((FULL_PRICE_BP - discount_bp) as u64)
}

/// The sum of the line totals `unit_price * quantity`, in micros, over
/// `(unit_price_micros, quantity)` pairs.
pub open spec fn spec_sum_micros(lines: Seq<(u64, u64)>) -> int
    decreases lines.len(),
{
    if lines.len() == 0 {
        0
    } else {
        spec_sum_micros(lines.drop_last()) + lines.last().0 * lines.last().1
    }
}

/// The order total in micros: line totals plus the delivery surcharge.
pub open spec fn spec_order_total_micros(lines: Seq<(u64, u64)>) -> int {
    spec_sum_micros(lines) + DELIVERY_MICROS
}

/// The order amount in minor units: the total truncated to minor units.
pub open spec fn spec_amount_minor(lines: Seq<(u64, u64)>) -> int {
    spec_order_total_micros(lines) / (MICROS_PER_MINOR as int)
}

/// Every line total is non-negative, so the sum dominates each of its
/// prefixes.
proof fn lemma_sum_prefix(lines: Seq<(u64, u64)>, i: int)
    requires
        0 <= i <= lines.len(),
    ensures
        spec_sum_micros(lines.take(i)) <= spec_sum_micros(lines),
    decreases lines.len() - i,
{
    if i == lines.len() {
        assert(lines.take(i) =~= lines);
    } else {
        assert(lines.take(i + 1).drop_last() =~= lines.take(i));
        assert(lines.take(i + 1).last() == lines[i]);
        assert(lines[i].0 * lines[i].1 >= 0) by (nonlinear_arith);
        lemma_sum_prefix(lines, i + 1);
    }
}

/// Computes the order amount in minor units from `(unit_price_micros,
/// quantity)` pairs. Succeeds exactly when the order total in micros fits a
/// `u64`; overflow surfaces as `InternalError`, the tier the conversion to
/// minor units reports. The amount is always positive: the delivery
/// surcharge alone exceeds one minor unit.
pub fn order_amount_minor(lines: &Vec<(u64, u64)>) -> (r: Result<u64, AppError>)
    requires
        forall|i: int| 0 <= i < lines@.len() ==> (#[trigger] lines@[i]).1 >= 1,
    ensures
        spec_order_total_micros(lines@) <= u64::MAX ==> (r matches Ok(a)
            && a == spec_amount_minor(lines@) && a > 0),
        spec_order_total_micros(lines@) > u64::MAX ==> (r matches Err(e) && e is InternalError),
{
    let n = lines.len();
    let mut acc: u64 = 0;
    let mut i: usize = 0;
    assert(lines@.take(0) =~= Seq::<(u64, u64)>::empty());
    while i < n
        invariant
            n == lines@.len(),
            0 <= i <= n,
            forall|k: int| 0 <= k < lines@.len() ==> (#[trigger] lines@[k]).1 >= 1,
            acc == spec_sum_micros(lines@.take(i as int)),
        decreases n - i,
    {
        let (unit, qty) = lines[i];
        proof {
            assert(lines@.take(i + 1).drop_last() =~= lines@.take(i as int));
            assert(lines@.take(i + 1).last() == lines@[i as int]);
        }
        let line_total = match unit.checked_mul(qty) {
            Some(t) => t,
            None => {
                proof {
                    lemma_sum_prefix(lines@, i + 1);
                    assert(acc >= 0);
                }
                return Err(AppError::InternalError(
                    "Failed to calculate amount".to_owned(),
                ));
            },
        };
        acc = match acc.checked_add(line_total) {
            Some(t) => t,
            None => {
                proof {
                    lemma_sum_prefix(lines@, i + 1);
                }
                return Err(AppError::InternalError(
                    "Failed to calculate amount".to_owned(),
                ));
            },
        };
        i += 1;
    }
    assert(lines@.take(n as int) =~= lines@);
    let total = match acc.checked_add(DELIVERY_MICROS) {
        Some(t) => t,
        None => {
            return Err(AppError::InternalError("Failed to calculate amount".to_owned()));
        },
    };
    Ok(total / MICROS_PER_MINOR)
}

} // verus!
