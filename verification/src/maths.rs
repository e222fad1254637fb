//! Rounding of integers to a power of ten.

use vstd::prelude::*;

verus! {

/// Ten to the power of `n`.
pub open spec fn power_of_ten(n: nat) -> int
    decreases n,
{
    if n == 0 {
        1
    } else {
        10 * power_of_ten((n - 1) as nat)
    }
}

/// `val` rounded to `-prec` digits before the decimal point, halves away
/// from zero; `val` itself where `prec` is not negative.
pub open spec fn rounded(val: int, prec: int) -> int {
    if prec >= 0 {
        val
    } else {
        let unit = power_of_ten((-prec) as nat);
        if val < 0 {
            -(((-val + unit / 2) / unit) * unit)
        } else {
            ((val + unit / 2) / unit) * unit
        }
    }
}

/// The largest magnitude that `integer_rnd` takes: two to the power of 126,
/// so that half a unit more still fits in 128 bits.
pub const ROUND_LIMIT: i128 = 0x4000_0000_0000_0000_0000_0000_0000_0000;

/// Powers of ten grow.
pub proof fn lemma_power_grows(n: nat, m: nat)
    requires
        n <= m,
    ensures
        1 <= power_of_ten(n) <= power_of_ten(m),
    decreases m,
{
    if n < m {
        lemma_power_grows(n, (m - 1) as nat);
    } else if n > 0 {
        lemma_power_grows((n - 1) as nat, (m - 1) as nat);
    }
}

/// Rounding moves a number by at most its own magnitude.
pub proof fn lemma_rounded_near(val: int, prec: int)
    ensures
        val >= 0 ==> 0 <= rounded(val, prec) <= 2 * val,
        val <= 0 ==> 2 * val <= rounded(val, prec) <= 0,
{
    if prec < 0 {
        let unit = power_of_ten((-prec) as nat);
        lemma_power_grows(0, (-prec) as nat);
        let magnitude = if val < 0 {
            -val
        } else {
            val
        };
        let steps = (magnitude + unit / 2) / unit;
        assert(0 <= steps * unit <= 2 * magnitude) by (nonlinear_arith)
            requires
                steps == (magnitude + unit / 2) / unit,
                unit >= 1,
                magnitude >= 0,
        ;
    }
}

/// The powers of ten that 128 bits hold.
fn ten_to(n: u32) -> (unit: i128)
    requires
        1 <= n <= 38,
    ensures
        unit == power_of_ten(n as nat),
        10 <= unit <= 100_000_000_000_000_000_000_000_000_000_000_000_000,
{
    let mut unit: i128 = 1;
    let mut i: u32 = 0;
    proof {
        lemma_largest();
    }
    while i < n
        invariant
            i <= n <= 38,
            unit == power_of_ten(i as nat),
            1 <= unit,
            unit <= power_of_ten(38),
            i >= 1 ==> unit >= 10,
        decreases n - i,
    {
        proof {
            lemma_power_grows((i + 1) as nat, 38);
            lemma_largest();
            lemma_power_grows(0, i as nat);
        }
        unit = unit * 10;
        i += 1;
    }
    proof {
        lemma_largest();
    }
    unit
}

/// Ten to the power of 38, the largest that 128 bits hold.
pub proof fn lemma_largest()
    ensures
        power_of_ten(38) == 100_000_000_000_000_000_000_000_000_000_000_000_000,
{
    reveal_with_fuel(power_of_ten, 39);
}

/// `val` rounded to `-prec` digits before the decimal point, halves away
/// from zero; `val` itself where `prec` is not negative.
pub fn integer_rnd(val: i128, prec: i32) -> (result: i128)
    requires
        -ROUND_LIMIT <= val <= ROUND_LIMIT,
    ensures
        result == rounded(val as int, prec as int),
{
    if prec >= 0 {
        return val;
    }
    let magnitude: i128 = if val < 0 {
        -val
    } else {
        val
    };
    if prec < -38 {
        proof {
            let unit = power_of_ten((-prec) as nat);
            lemma_power_grows(39, (-prec) as nat);
            lemma_largest();
            assert(power_of_ten(39) == 10 * power_of_ten(38));
            assert((magnitude + unit / 2) / unit == 0) by (nonlinear_arith)
                requires
                    0 <= magnitude <= 0x4000_0000_0000_0000_0000_0000_0000_0000,
                    unit >= 1_000_000_000_000_000_000_000_000_000_000_000_000_000,
            ;
        }
        return 0;
    }
    let digits: u32 = (-(prec as i64)) as u32;
    let unit = ten_to(digits);
    let steps = (magnitude + unit / 2) / unit;
    assert(0 <= steps * unit <= magnitude + unit / 2) by (nonlinear_arith)
        requires
            steps == (magnitude + unit / 2) / (unit as int),
            unit > 0,
            magnitude >= 0,
    ;
    let near = steps * unit;
    if val < 0 {
        -near
    } else {
        near
    }
}

} // verus!
