//! The integer side of cardinality estimation.
//!
//! An estimate is read from three numbers: the register count `m`, the number
//! of zero registers, and the harmonic sum `Z`, the sum of `2^-r` over all
//! registers `r`. The harmonic-mean estimate is `alpha(m) * m^2 / Z`. While
//! some register is still zero and that estimate is at most `2.5 * m`, the
//! linear-counting estimate `m * ln(m / zeros)` is used in its place.
//!
//! Everything here is exact integer arithmetic: `Z` is kept as the integer
//! `Z * 2^64`, `alpha` as a fraction, and the choice between the two estimates
//! is made without rounding. Turning the chosen formula into a floating-point
//! number is left to the caller.

use vstd::prelude::*;
use vstd::arithmetic::power2::{lemma2_to64, pow2};
use crate::projector::{lemma_register_count_fits, precision_of, valid_register_count};
use crate::registers::{
    blank, count_zeros, covers, lemma_blank_counts, lemma_counts_bounded,
    lemma_covering_lowers_counts, lemma_merge_covers, merged, sum_weights, weighted_sum,
    within_rank, zero_count,
};

verus! {

/// A fraction of two integers.
#[derive(Debug, Clone, Copy, PartialEq, Eq, Structural)]
pub struct Ratio {
    pub num: u64,
    pub den: u64,
}

/// The formula that yields the cardinality, with the integers it is applied to.
#[derive(Debug, Clone, Copy, PartialEq, Eq, Structural)]
pub enum Estimate {
    /// The estimate is `registers * ln(registers / zeros)`.
    LinearCounting { registers: usize, zeros: usize },
    /// The estimate is `alpha * registers^2 / Z`, where `Z` is `weighted_sum / 2^64`.
    HarmonicMean { registers: usize, alpha: Ratio, weighted_sum: u128 },
}

impl Estimate {
    /// Whether the formula can be evaluated and gives a number that is not
    /// negative: linear counting divides by a number of zeros that is
    /// neither zero nor above the register count; the harmonic mean divides
    /// by a sum and a denominator that are not zero.
    pub open spec fn is_defined(self) -> bool {
        match self {
            Estimate::LinearCounting { registers, zeros } => 0 < zeros <= registers,
            Estimate::HarmonicMean { registers, alpha, weighted_sum } => {
                &&& registers > 0
                &&& alpha.num > 0
                &&& alpha.den > 0
                &&& weighted_sum >= registers
            },
        }
    }

    /// Whether this estimate can be that of registers that were raised from
    /// the registers behind `earlier`. Where both use linear counting, this
    /// one reads no more zeros, so `m * ln(m / zeros)` has not fallen. Where
    /// both use the harmonic mean, this one divides by no larger a sum, so
    /// `alpha * m^2 / Z` has not fallen. The formula may have changed from
    /// linear counting to the harmonic mean, about which nothing more is
    /// said, and never the other way.
    pub open spec fn raised_from(self, earlier: Estimate) -> bool {
        match (earlier, self) {
            (
                Estimate::LinearCounting { registers: m, zeros: before },
                Estimate::LinearCounting { registers, zeros },
            ) => registers == m && zeros <= before,
            (
                Estimate::HarmonicMean { registers: m, alpha: a, weighted_sum: before },
                Estimate::HarmonicMean { registers, alpha, weighted_sum },
            ) => registers == m && alpha == a && weighted_sum <= before,
            (Estimate::LinearCounting { registers: m, .. }, Estimate::HarmonicMean { registers, .. }) => {
                registers == m
            },
            (Estimate::HarmonicMean { .. }, Estimate::LinearCounting { .. }) => false,
        }
    }
}

/// Numerator of the bias correction `alpha(m)`: the tabulated values 0.673,
/// 0.697 and 0.709 for 16, 32 and 64 registers, and `0.7213 / (1 + 1.079 / m)`,
/// which is `7213 m / (10000 m + 10790)`, for every other count.
pub open spec fn alpha_num(m: nat) -> nat {
    if m == 16 {
        673
    } else if m == 32 {
        697
    } else if m == 64 {
        709
    } else {
        7213 * m
    }
}

/// Denominator of the bias correction `alpha(m)`.
pub open spec fn alpha_den(m: nat) -> nat {
    if m == 16 || m == 32 || m == 64 {
        1000
    } else {
        10000 * m + 10790
    }
}

/// Whether the harmonic-mean estimate for `m` registers with harmonic sum
/// `sum / 2^64` is at most `2.5 * m`. With `alpha = num / den` this is
/// `num * m^2 * 2^64 / (den * sum) <= 5 m / 2`, cleared of fractions.
pub open spec fn in_small_range(m: nat, sum: nat) -> bool {
    2 * alpha_num(m) * m * pow2(64) <= 5 * alpha_den(m) * sum
}

/// The estimate for `m` registers of which `zeros` are zero and whose
/// harmonic sum is `sum / 2^64`.
pub open spec fn chosen(m: nat, zeros: nat, sum: nat) -> Estimate {
    if zeros > 0 && in_small_range(m, sum) {
        Estimate::LinearCounting { registers: m as usize, zeros: zeros as usize }
    } else {
        Estimate::HarmonicMean {
            registers: m as usize,
            alpha: Ratio { num: alpha_num(m) as u64, den: alpha_den(m) as u64 },
            weighted_sum: sum as u128,
        }
    }
}

/// The estimate that belongs to a register array.
pub open spec fn estimate_of(registers: Seq<u8>) -> Estimate {
    chosen(registers.len(), zero_count(registers), weighted_sum(registers))
}

/// The bias correction for `m` registers, as a fraction.
pub fn alpha(m: usize) -> (a: Ratio)
    requires
        m <= 0x4000_0000,
    ensures
        a.num == alpha_num(m as nat),
        a.den == alpha_den(m as nat),
        a.den > 0,
{
    if m == 16 {
        Ratio { num: 673, den: 1000 }
    } else if m == 32 {
        Ratio { num: 697, den: 1000 }
    } else if m == 64 {
        Ratio { num: 709, den: 1000 }
    } else {
        let wide: u64 = m as u64;
        Ratio { num: 7213 * wide, den: 10000 * wide + 10790 }
    }
}

/// Chooses the formula for `m` registers of which `zeros` are zero and whose
/// weights add up to `sum`: linear counting while a register is still zero and
/// the harmonic-mean estimate is at most `2.5 * m`, the harmonic mean otherwise.
pub fn choose_estimate(m: usize, zeros: usize, sum: u128) -> (e: Estimate)
    requires
        m <= 0x4000_0000,
        sum <= m * 0x1_0000_0000_0000_0000,
    ensures
        e == chosen(m as nat, zeros as nat, sum as nat),
        0 < m <= sum && zeros <= m ==> e.is_defined(),
{
    let a = alpha(m);
    let twice: u128 = 2 * (a.num as u128);
    let scale: u128 = 5 * (a.den as u128);
    let high: u128 = sum / 0x1_0000_0000_0000_0000u128;
    let low: u128 = sum % 0x1_0000_0000_0000_0000u128;
    proof {
        assert(twice * m <= 0x4000_0000_0000 * 0x4000_0000) by (nonlinear_arith)
            requires
                twice <= 0x4000_0000_0000,
                m <= 0x4000_0000,
        ;
        assert(low * scale <= 0x1_0000_0000_0000_0000 * 0x1_0000_0000_0000) by (nonlinear_arith)
            requires
                low <= 0x1_0000_0000_0000_0000,
                scale <= 0x1_0000_0000_0000,
        ;
        assert(high * scale <= 0x4000_0000 * 0x1_0000_0000_0000) by (nonlinear_arith)
            requires
                high <= 0x4000_0000,
                scale <= 0x1_0000_0000_0000,
        ;
    }
    let lhs: u128 = twice * (m as u128);
    let carry: u128 = (low * scale) / 0x1_0000_0000_0000_0000u128;
    let rhs: u128 = high * scale + carry;
    proof {
        lemma2_to64();
        lemma_scaled_comparison(lhs as int, scale as int, sum as int);
        assert(2 * alpha_num(m as nat) * (m as nat) * pow2(64) == lhs * 0x1_0000_0000_0000_0000)
            by (nonlinear_arith)
            requires
                lhs == 2 * alpha_num(m as nat) * (m as nat),
                pow2(64) == 0x1_0000_0000_0000_0000,
        ;
        assert(5 * alpha_den(m as nat) * (sum as nat) == sum * scale) by (nonlinear_arith)
            requires
                scale == 5 * alpha_den(m as nat),
        ;
    }
    if zeros > 0 && lhs <= rhs {
        Estimate::LinearCounting { registers: m, zeros }
    } else {
        Estimate::HarmonicMean { registers: m, alpha: a, weighted_sum: sum }
    }
}

/// Reads the estimate off a register array.
pub fn estimate_registers(registers: &Vec<u8>) -> (e: Estimate)
    requires
        valid_register_count(registers@.len()),
        within_rank(registers@),
    ensures
        e == estimate_of(registers@),
        e.is_defined(),
{
    proof {
        lemma_register_count_fits(precision_of(registers@.len()));
    }
    let zeros = count_zeros(registers);
    let sum = sum_weights(registers);
    choose_estimate(registers.len(), zeros, sum)
}

/// Comparing `lhs * 2^64` with `sum * scale` needs only the part of the
/// product above its low 64 bits: with `sum = high * 2^64 + low`, the
/// comparison is `lhs <= high * scale + (low * scale) / 2^64`.
pub proof fn lemma_scaled_comparison(lhs: int, scale: int, sum: int)
    requires
        0 <= lhs,
        0 <= scale,
        0 <= sum,
    ensures
        ({
            let unit = 0x1_0000_0000_0000_0000int;
            (lhs * unit <= sum * scale) <==> (lhs <= (sum / unit) * scale + ((sum % unit) * scale) / unit)
        }),
{
    let unit = 0x1_0000_0000_0000_0000int;
    let high = sum / unit;
    let low = sum % unit;
    let carry = (low * scale) / unit;
    let rest = (low * scale) % unit;
    let rhs = high * scale + carry;
    assert(sum == high * unit + low);
    assert(low * scale == carry * unit + rest);
    assert(sum * scale == rhs * unit + rest) by (nonlinear_arith)
        requires
            sum == high * unit + low,
            low * scale == carry * unit + rest,
            rhs == high * scale + carry,
    ;
    assert((lhs * unit <= rhs * unit + rest) <==> lhs <= rhs) by (nonlinear_arith)
        requires
            0 <= rest < unit,
            unit > 0,
    ;
}

/// An empty sketch estimates zero: with every register zero the formula
/// chosen is linear counting with as many zeros as registers, which is
/// `m * ln(m / m)`.
pub proof fn lemma_empty_estimate(m: nat)
    requires
        valid_register_count(m),
    ensures
        estimate_of(blank(m)) == (Estimate::LinearCounting { registers: m as usize, zeros: m as usize }),
{
    lemma_blank_counts(m);
    lemma_register_count_fits(precision_of(m));
    lemma2_to64();
    let unit = 0x1_0000_0000_0000_0000int;
    assert(2 * alpha_num(m) * m * unit <= 5 * alpha_den(m) * (m * unit)) by (nonlinear_arith)
        requires
            2 * alpha_num(m) <= 5 * alpha_den(m),
            unit > 0,
    ;
}

/// Raising registers, as adding and merging do, moves an estimate one way
/// only: the estimate of the raised registers is one that
/// [`Estimate::raised_from`] allows after the estimate of the registers
/// they were raised from.
pub proof fn lemma_raised_estimate(raised: Seq<u8>, base: Seq<u8>)
    requires
        valid_register_count(base.len()),
        covers(raised, base),
        within_rank(raised),
    ensures
        estimate_of(raised).raised_from(estimate_of(base)),
{
    let m = base.len();
    lemma_covering_lowers_counts(raised, base);
    lemma_counts_bounded(raised);
    lemma_counts_bounded(base);
    lemma_register_count_fits(precision_of(m));
    assert(within_rank(base));
    let sum_before = weighted_sum(base);
    let sum_after = weighted_sum(raised);
    assert(m * 0x1_0000_0000_0000_0000 <= 0x4000_0000 * 0x1_0000_0000_0000_0000) by (nonlinear_arith)
        requires
            m <= 0x4000_0000,
    ;
    assert(in_small_range(m, sum_after) ==> in_small_range(m, sum_before)) by (nonlinear_arith)
        requires
            sum_after <= sum_before,
            in_small_range(m, sum_after) == (2 * alpha_num(m) * m * pow2(64) <= 5 * alpha_den(m)
                * sum_after),
            in_small_range(m, sum_before) == (2 * alpha_num(m) * m * pow2(64) <= 5 * alpha_den(m)
                * sum_before),
            alpha_den(m) >= 0,
    ;
}

/// Merging does not lower an estimate: the estimate of two sketches merged
/// is one that [`Estimate::raised_from`] allows after the estimate of either.
pub proof fn lemma_merged_estimate(a: Seq<u8>, b: Seq<u8>)
    requires
        valid_register_count(a.len()),
        a.len() == b.len(),
        within_rank(a),
        within_rank(b),
    ensures
        estimate_of(merged(a, b)).raised_from(estimate_of(a)),
        estimate_of(merged(a, b)).raised_from(estimate_of(b)),
{
    lemma_merge_covers(a, b);
    lemma_raised_estimate(merged(a, b), a);
    lemma_raised_estimate(merged(a, b), b);
}

} // verus!
