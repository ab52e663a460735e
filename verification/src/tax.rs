//! Tax categories applicable to goods, and the rounding rule that turns an
//! extended price into a tax amount in minor currency units.

use vstd::prelude::*;

verus! {

/// Taxes applicable to goods.
#[derive(Debug, Clone, Copy, PartialEq, Eq, Structural)]
pub enum Tax {
    /// A 0% tax.
    Tax0,
    /// A 5% tax.
    Tax5,
    /// A 10% tax.
    Tax10,
    /// A 15% tax.
    Tax15,
}

/// The rate of a tax category, in whole percent.
pub open spec fn rate_percent(t: Tax) -> int {
    match t {
        Tax::Tax0 => 0,
        Tax::Tax5 => 5,
        Tax::Tax10 => 10,
        Tax::Tax15 => 15,
    }
}

/// `amount` at `t`'s rate, rounded to the nearest minor unit with ties away
/// from zero: for non-negative amounts this is `floor(amount * rate / 100 + 1/2)`.
pub open spec fn rounded_rate(t: Tax, amount: int) -> int {
    (amount * rate_percent(t) + 50) / 100
}

/// Snap a tax amount to the nearest multiple of 5 minor units, rounding a
/// remainder of 1 to 4 up to the next multiple of 5 and a remainder of 6 to 9
/// up to the next multiple of 10; exact multiples of 5 are left unchanged.
pub open spec fn snap_to_five(tax: int) -> int {
    let unit = tax % 10;
    if unit > 5 {
        tax + 10 - unit
    } else if 0 < unit && unit < 5 {
        tax + 5 - unit
    } else {
        tax
    }
}

/// The tax owed on an extended price `amount` under category `t`.
pub open spec fn tax_on(t: Tax, amount: int) -> int {
    snap_to_five(rounded_rate(t, amount))
}

impl Tax {
    /// Apply the current tax to a given amount (a pre-tax extended price in
    /// minor units), producing a tax amount that always ends in 0 or 5.
    pub fn apply(&self, amount: u32) -> (r: u32)
        ensures
            r == tax_on(*self, amount as int),
    {
        let a = amount as u64;
        let value: u64 = match self {
            Tax::Tax0 => 0,
            Tax::Tax5 => (a * 5 + 50) / 100,
            Tax::Tax10 => (a * 10 + 50) / 100,
            Tax::Tax15 => (a * 15 + 50) / 100,
        };
        assert(value <= (15 * 0xffff_ffffu64 + 50) / 100);
        let unit = value % 10;
        let snapped = if unit > 5 {
            value + 10 - unit
        } else if unit > 0 && unit < 5 {
            value + 5 - unit
        } else {
            value
        };
        snapped as u32
    }
}

/// The tax on any non-negative amount is non-negative and is always a
/// multiple of 5 minor units.
pub proof fn lemma_tax_multiple_of_five(t: Tax, amount: int)
    requires
        0 <= amount,
    ensures
        0 <= tax_on(t, amount),
        tax_on(t, amount) % 5 == 0,
{
    let v = rounded_rate(t, amount);
    assert(0 <= amount * rate_percent(t)) by (nonlinear_arith)
        requires
            0 <= amount,
            0 <= rate_percent(t),
    ;
    assert(0 <= v) by {
        vstd::arithmetic::div_mod::lemma_div_pos_is_pos(amount * rate_percent(t) + 50, 100);
    }
    let unit = v % 10;
    let d = v / 10;
    assert(v == 10 * d + unit);
    if unit > 5 {
        assert(v + 10 - unit == 5 * (2 * d + 2));
        assert((5 * (2 * d + 2)) % 5 == 0) by (nonlinear_arith);
    } else if 0 < unit && unit < 5 {
        assert(v + 5 - unit == 5 * (2 * d + 1));
        assert((5 * (2 * d + 1)) % 5 == 0) by (nonlinear_arith);
    } else {
        assert(v == 5 * (2 * d) + unit);
        if unit == 0 {
            assert((5 * (2 * d)) % 5 == 0) by (nonlinear_arith);
        } else {
            assert(v == 5 * (2 * d + 1));
            assert((5 * (2 * d + 1)) % 5 == 0) by (nonlinear_arith);
        }
    }
}

/// A 0% tax owes nothing, whatever the amount.
pub proof fn lemma_tax_zero(amount: int)
    ensures
        tax_on(Tax::Tax0, amount) == 0,
{
}

/// For amounts of at least 5 minor units the tax never exceeds the amount
/// itself, at every rate. (On smaller amounts the snap up to a multiple of 5
/// can overshoot: a 15% tax on 4 minor units comes to 5.)
pub proof fn lemma_tax_le_amount(t: Tax, amount: int)
    requires
        5 <= amount,
    ensures
        tax_on(t, amount) <= amount,
{
    let v = rounded_rate(t, amount);
    assert(amount * rate_percent(t) <= amount * 15) by (nonlinear_arith)
        requires
            0 <= amount,
            rate_percent(t) <= 15,
    ;
    assert(v <= (amount * 15 + 50) / 100) by {
        vstd::arithmetic::div_mod::lemma_div_is_ordered(
            amount * rate_percent(t) + 50,
            amount * 15 + 50,
            100,
        );
    }
    assert((amount * 15 + 50) / 100 < amount - 3) by {
        assert(amount * 15 + 50 < 100 * (amount - 3));
        vstd::arithmetic::div_mod::lemma_multiply_divide_lt(amount * 15 + 50, 100, amount - 3);
    }
    assert(tax_on(t, amount) <= v + 4);
}

} // verus!
