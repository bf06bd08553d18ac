//! The tax-per-area ratio and its ordering.
use vstd::prelude::*;

verus! {

/// Smallest lot size, in square feet, accepted as a denominator.
pub const MIN_LOT_SIZE: i64 = 10;

/// Outcome of dividing a tax payment by a lot size.
///
/// A valid ratio is kept as the exact fraction `taxes_paid / lot_size`, with
/// the payment in cents and the lot size in square feet.
#[derive(Clone, Copy, Debug, PartialEq, Eq, Structural)]
pub enum TaxRatio {
    Amount { taxes_paid: i64, lot_size: i64 },
    InvalidLotSize,
    ZeroTaxPaid,
}

/// The ratio outcome for a payment of `amount` cents on a lot of
/// `lot_size` square feet.
pub open spec fn ratio_of(amount: i64, lot_size: i64) -> TaxRatio {
    if lot_size < MIN_LOT_SIZE {
        TaxRatio::InvalidLotSize
    } else if amount <= 0 {
        TaxRatio::ZeroTaxPaid
    } else {
        TaxRatio::Amount { taxes_paid: amount, lot_size }
    }
}

/// Computes the ratio outcome of a payment of `amount` cents on a lot of
/// `lot_size` square feet.
pub fn tax_per_sqft(amount: i64, lot_size: i64) -> (r: TaxRatio)
    ensures
        r == ratio_of(amount, lot_size),
        lot_size < MIN_LOT_SIZE ==> r == TaxRatio::InvalidLotSize,
        lot_size >= MIN_LOT_SIZE && amount <= 0 ==> r == TaxRatio::ZeroTaxPaid,
        lot_size >= MIN_LOT_SIZE && amount > 0 ==> r == (TaxRatio::Amount {
            taxes_paid: amount,
            lot_size,
        }),
{
    if lot_size < MIN_LOT_SIZE {
        return TaxRatio::InvalidLotSize;
    }
    if amount <= 0 {
        return TaxRatio::ZeroTaxPaid;
    }
    TaxRatio::Amount { taxes_paid: amount, lot_size }
}

impl TaxRatio {
    /// A valid ratio in cents per square foot, rounded half up: the
    /// dollars-per-square-foot value to two decimal places, times 100.
    /// `None` for the invalid outcomes and for a fraction with a negative
    /// amount or a non-positive lot size.
    pub fn rounded_cents_per_sqft(&self) -> (r: Option<i64>)
        ensures
            match *self {
                TaxRatio::Amount { taxes_paid, lot_size } => if taxes_paid >= 0 && lot_size > 0 {
                    r == Some(((2 * taxes_paid + lot_size) / (2 * lot_size)) as i64)
                } else {
                    r is None
                },
                _ => r is None,
            },
    {
        match self {
            TaxRatio::Amount { taxes_paid, lot_size } => {
                if *taxes_paid >= 0 && *lot_size > 0 {
                    let n = *taxes_paid as i128;
                    let d = *lot_size as i128;
                    let q = (2 * n + d) / (2 * d);
                    proof {
                        lemma_rounded_quotient_bound(n as int, d as int);
                    }
                    Some(q as i64)
                } else {
                    None
                }
            },
            _ => None,
        }
    }
}

proof fn lemma_rounded_quotient_bound(n: int, d: int)
    requires
        n >= 0,
        d > 0,
    ensures
        0 <= (2 * n + d) / (2 * d) <= n,
{
    let q = (2 * n + d) / (2 * d);
    vstd::arithmetic::div_mod::lemma_fundamental_div_mod(2 * n + d, 2 * d);
    let rem = (2 * n + d) % (2 * d);
    assert(0 <= rem < 2 * d);
    assert(q * (2 * d) + rem == 2 * n + d);
    assert(0 <= q <= n) by (nonlinear_arith)
        requires
            n >= 0,
            d > 0,
            0 <= rem < 2 * d,
            q * (2 * d) + rem == 2 * n + d,
    {
        if q > n {
            assert(q * (2 * d) >= (n + 1) * (2 * d));
        }
        if q < 0 {
            assert(q * (2 * d) <= -(2 * d));
        }
    }
}

/// `a` ranks at or above `b` in a descending ranking.
///
/// Valid ratios compare as fractions (cross-multiplied), and rank above the
/// two invalid outcomes, which rank equal to each other.
pub open spec fn ranks_at_least(a: TaxRatio, b: TaxRatio) -> bool {
    match (a, b) {
        (
            TaxRatio::Amount { taxes_paid: an, lot_size: ad },
            TaxRatio::Amount { taxes_paid: bn, lot_size: bd },
        ) => an * bd >= bn * ad,
        (TaxRatio::Amount { .. }, _) => true,
        (_, TaxRatio::Amount { .. }) => false,
        _ => true,
    }
}

/// A ratio whose fraction has a positive denominator; on such ratios
/// `ranks_at_least` is a total preorder.
pub open spec fn orderable(a: TaxRatio) -> bool {
    a is Amount ==> a->lot_size > 0
}

proof fn lemma_product_bounds(x: i64, y: i64)
    ensures
        -0x4000_0000_0000_0000_0000_0000_0000_0000 <= (x as int) * (y as int)
            <= 0x4000_0000_0000_0000_0000_0000_0000_0000,
{
    assert(-0x4000_0000_0000_0000_0000_0000_0000_0000 <= (x as int) * (y as int)
        <= 0x4000_0000_0000_0000_0000_0000_0000_0000) by (nonlinear_arith)
        requires
            -0x8000_0000_0000_0000 <= x <= 0x7fff_ffff_ffff_ffff,
            -0x8000_0000_0000_0000 <= y <= 0x7fff_ffff_ffff_ffff,
    ;
}

/// Decides whether `a` ranks at or above `b`.
pub fn ratio_at_least(a: &TaxRatio, b: &TaxRatio) -> (r: bool)
    ensures
        r == ranks_at_least(*a, *b),
{
    match (a, b) {
        (
            TaxRatio::Amount { taxes_paid: an, lot_size: ad },
            TaxRatio::Amount { taxes_paid: bn, lot_size: bd },
        ) => {
            proof {
                lemma_product_bounds(*an, *bd);
                lemma_product_bounds(*bn, *ad);
            }
            (*an as i128) * (*bd as i128) >= (*bn as i128) * (*ad as i128)
        },
        (TaxRatio::Amount { .. }, _) => true,
        (_, TaxRatio::Amount { .. }) => false,
        _ => true,
    }
}

/// Any two ratios are comparable.
pub proof fn lemma_ranks_total(a: TaxRatio, b: TaxRatio)
    ensures
        ranks_at_least(a, b) || ranks_at_least(b, a),
{
}

/// On orderable ratios, ranking at or above is transitive.
pub proof fn lemma_ranks_transitive(a: TaxRatio, b: TaxRatio, c: TaxRatio)
    requires
        orderable(a),
        orderable(b),
        orderable(c),
        ranks_at_least(a, b),
        ranks_at_least(b, c),
    ensures
        ranks_at_least(a, c),
{
    if a is Amount && b is Amount && c is Amount {
        let (an, ad) = (a->taxes_paid as int, a->lot_size as int);
        let (bn, bd) = (b->taxes_paid as int, b->lot_size as int);
        let (cn, cd) = (c->taxes_paid as int, c->lot_size as int);
        assert(an * cd >= cn * ad) by (nonlinear_arith)
            requires
                ad > 0,
                bd > 0,
                cd > 0,
                an * bd >= bn * ad,
                bn * cd >= cn * bd,
        {
            assert(an * bd * cd >= bn * ad * cd);
            assert(bn * cd * ad >= cn * bd * ad);
            assert(an * cd * bd >= cn * ad * bd);
        }
    }
}

/// Every outcome of the calculator is orderable.
pub proof fn lemma_ratio_of_orderable(amount: i64, lot_size: i64)
    ensures
        orderable(ratio_of(amount, lot_size)),
{
}

} // verus!
