//! The register array: the memory of a sketch, and its elementwise merge.

use vstd::prelude::*;
use vstd::arithmetic::power2::{lemma2_to64, lemma_pow2_strictly_increases, pow2};
use vstd::bits::{lemma_u64_pow2_no_overflow, lemma_u64_shl_is_mul};

verus! {

/// Largest value a register can hold in a sketch that is ready for estimation.
pub const MAX_RANK: u8 = 64;

/// The larger of two register values.
pub open spec fn higher(a: u8, b: u8) -> u8 {
    if a >= b { a } else { b }
}

/// A register array of `len` zeros.
pub open spec fn blank(len: nat) -> Seq<u8> {
    Seq::new(len, |i: int| 0u8)
}

/// The elementwise maximum of two register arrays of one length.
pub open spec fn merged(a: Seq<u8>, b: Seq<u8>) -> Seq<u8>
    recommends
        a.len() == b.len(),
{
    Seq::new(a.len(), |i: int| higher(a[i], b[i]))
}

/// The registers after one observation: the register at `index` is raised to
/// `rank` if it was lower, and nothing else changes.
pub open spec fn observed(registers: Seq<u8>, index: int, rank: u8) -> Seq<u8>
    recommends
        0 <= index < registers.len(),
{
    registers.update(index, higher(registers[index], rank))
}

/// The registers after a sequence of observations, each a register index
/// with a rank, taken in their order.
pub open spec fn observed_all(registers: Seq<u8>, observations: Seq<(int, u8)>) -> Seq<u8>
    decreases observations.len(),
{
    if observations.len() == 0 {
        registers
    } else {
        observed(
            observed_all(registers, observations.drop_last()),
            observations.last().0,
            observations.last().1,
        )
    }
}

/// Whether every observation falls on one of `len` registers.
pub open spec fn in_range(observations: Seq<(int, u8)>, len: nat) -> bool {
    forall|k: int| 0 <= k < observations.len() ==> 0 <= (#[trigger] observations[k]).0 < len
}

/// The highest rank among the observations that fall on register `index`;
/// zero where none does.
pub open spec fn peak(observations: Seq<(int, u8)>, index: int) -> u8
    decreases observations.len(),
{
    if observations.len() == 0 {
        0
    } else if observations.last().0 == index {
        higher(peak(observations.drop_last(), index), observations.last().1)
    } else {
        peak(observations.drop_last(), index)
    }
}

/// Whether `a` is at least `b` at every position.
pub open spec fn covers(a: Seq<u8>, b: Seq<u8>) -> bool {
    a.len() == b.len() && forall|i: int| 0 <= i < a.len() ==> a[i] >= b[i]
}

/// Whether no register exceeds [`MAX_RANK`].
pub open spec fn within_rank(registers: Seq<u8>) -> bool {
    forall|i: int| 0 <= i < registers.len() ==> registers[i] <= MAX_RANK
}

/// The number of registers that are zero.
pub open spec fn zero_count(registers: Seq<u8>) -> nat
    decreases registers.len(),
{
    if registers.len() == 0 {
        0
    } else {
        zero_count(registers.drop_last()) + if registers.last() == 0 { 1nat } else { 0nat }
    }
}

/// What a register of value `rank` adds to the harmonic sum, in units of
/// `2^-64`: the number `2^(64 - rank)`, which stands for `2^-rank`.
pub open spec fn weight(rank: u8) -> nat
    recommends
        rank <= MAX_RANK,
{
    pow2((64 - rank) as nat)
}

/// The harmonic sum of a register array in units of `2^-64`: the sum of
/// `2^(64 - r)` over its registers `r`, which stands for the sum of `2^-r`.
pub open spec fn weighted_sum(registers: Seq<u8>) -> nat
    recommends
        within_rank(registers),
    decreases registers.len(),
{
    if registers.len() == 0 {
        0
    } else {
        weighted_sum(registers.drop_last()) + weight(registers.last())
    }
}

/// Why two sketches could not be combined.
#[derive(Debug, Clone, Copy, PartialEq, Eq, Structural)]
pub enum ConfigError {
    /// The sketches differ in size: the one merged into has `expected`
    /// registers, the other has `found`.
    ShapeMismatch { expected: usize, found: usize },
}

/// A prefix one longer than another ends in the element at the old length
/// and continues that shorter prefix.
pub proof fn lemma_take_step(registers: Seq<u8>, i: int)
    requires
        0 <= i < registers.len(),
    ensures
        registers.take(i + 1).drop_last() == registers.take(i),
        registers.take(i + 1).last() == registers[i],
{
    assert(registers.take(i + 1).drop_last() =~= registers.take(i));
}

/// A fresh register array: `len` counters, all zero.
pub fn blank_registers(len: usize) -> (v: Vec<u8>)
    ensures
        v@ == blank(len as nat),
{
    let v = vec![0u8; len];
    assert(v@ =~= blank(len as nat));
    v
}

/// Records one observation: the register at `index` becomes the larger of
/// its value and `rank`. A register never goes down.
pub fn observe(registers: &mut Vec<u8>, index: usize, rank: u8)
    requires
        index < old(registers).len(),
    ensures
        final(registers)@ == observed(old(registers)@, index as int, rank),
{
    if registers[index] < rank {
        registers.set(index, rank);
    }
    assert(registers@ =~= observed(old(registers)@, index as int, rank));
}

/// Raises every register of `target` to the register of `source` at the same
/// position, where that one is larger. Arrays of different lengths are not
/// merged: `target` stays as it was and the mismatch is reported.
pub fn merge_registers(target: &mut Vec<u8>, source: &Vec<u8>) -> (r: Result<(), ConfigError>)
    ensures
        old(target).len() == source.len() ==> r is Ok && final(target)@ == merged(old(target)@, source@),
        covers(final(target)@, old(target)@),
        within_rank(old(target)@) && within_rank(source@) ==> within_rank(final(target)@),
        old(target).len() != source.len() ==> final(target)@ == old(target)@ && r == Err::<(), ConfigError>(
            ConfigError::ShapeMismatch { expected: old(target).len(), found: source.len() },
        ),
{
    let n = target.len();
    if source.len() != n {
        return Err(ConfigError::ShapeMismatch { expected: n, found: source.len() });
    }
    let mut i: usize = 0;
    while i < n
        invariant
            i <= n,
            n == source.len(),
            target.len() == n,
            forall|j: int| 0 <= j < i ==> target@[j] == higher(old(target)@[j], source@[j]),
            forall|j: int| i <= j < n ==> target@[j] == old(target)@[j],
        decreases n - i,
    {
        let theirs = source[i];
        if target[i] < theirs {
            target.set(i, theirs);
        }
        i += 1;
    }
    assert(target@ =~= merged(old(target)@, source@));
    Ok(())
}

/// Whether every register is at most [`MAX_RANK`].
pub fn all_within_rank(registers: &Vec<u8>) -> (ok: bool)
    ensures
        ok == within_rank(registers@),
{
    let n = registers.len();
    let mut i: usize = 0;
    while i < n
        invariant
            i <= n,
            n == registers.len(),
            forall|j: int| 0 <= j < i ==> registers@[j] <= MAX_RANK,
        decreases n - i,
    {
        if registers[i] > MAX_RANK {
            return false;
        }
        i += 1;
    }
    true
}

/// Counts the registers that are zero.
pub fn count_zeros(registers: &Vec<u8>) -> (zeros: usize)
    ensures
        zeros == zero_count(registers@),
        zeros <= registers.len(),
{
    let n = registers.len();
    let mut zeros: usize = 0;
    let mut i: usize = 0;
    while i < n
        invariant
            i <= n,
            n == registers.len(),
            zeros <= i,
            zeros == zero_count(registers@.take(i as int)),
        decreases n - i,
    {
        proof {
            lemma_take_step(registers@, i as int);
        }
        if registers[i] == 0 {
            zeros += 1;
        }
        i += 1;
    }
    assert(registers@.take(n as int) =~= registers@);
    zeros
}

/// The weight of one register: `2^(64 - rank)`.
pub fn weight_of(rank: u8) -> (w: u128)
    requires
        rank <= MAX_RANK,
    ensures
        w == weight(rank),
        1 <= w <= 0x1_0000_0000_0000_0000,
{
    proof {
        lemma2_to64();
    }
    if rank == 0 {
        0x1_0000_0000_0000_0000u128
    } else {
        let shift: u32 = 64 - rank as u32;
        proof {
            lemma_u64_pow2_no_overflow(shift as nat);
            lemma_u64_shl_is_mul(1u64, shift as u64);
        }
        let w: u64 = 1u64 << shift;
        w as u128
    }
}

/// Adds up the weights of all registers: the harmonic sum in units of `2^-64`.
pub fn sum_weights(registers: &Vec<u8>) -> (sum: u128)
    requires
        within_rank(registers@),
    ensures
        sum == weighted_sum(registers@),
        registers.len() <= sum <= registers.len() * 0x1_0000_0000_0000_0000,
{
    let n = registers.len();
    let mut sum: u128 = 0;
    let mut i: usize = 0;
    while i < n
        invariant
            i <= n,
            n == registers.len(),
            within_rank(registers@),
            sum == weighted_sum(registers@.take(i as int)),
            i <= sum <= i * 0x1_0000_0000_0000_0000,
        decreases n - i,
    {
        proof {
            lemma_take_step(registers@, i as int);
        }
        let w = weight_of(registers[i]);
        sum = sum + w;
        i += 1;
    }
    assert(registers@.take(n as int) =~= registers@);
    sum
}

/// Merging is commutative: the order of the two arrays does not matter.
pub proof fn lemma_merge_commutative(a: Seq<u8>, b: Seq<u8>)
    requires
        a.len() == b.len(),
    ensures
        merged(a, b) == merged(b, a),
{
    assert(merged(a, b) =~= merged(b, a));
}

/// Merging is associative: three arrays merge to the same array however
/// they are grouped.
pub proof fn lemma_merge_associative(a: Seq<u8>, b: Seq<u8>, c: Seq<u8>)
    requires
        a.len() == b.len(),
        b.len() == c.len(),
    ensures
        merged(merged(a, b), c) == merged(a, merged(b, c)),
{
    assert(merged(merged(a, b), c) =~= merged(a, merged(b, c)));
}

/// Merging is idempotent: an array merged with itself is unchanged.
pub proof fn lemma_merge_idempotent(a: Seq<u8>)
    ensures
        merged(a, a) == a,
{
    assert(merged(a, a) =~= a);
}

/// A merged array is at least each of its two sources at every position,
/// and stays within the rank limit where both sources do.
pub proof fn lemma_merge_covers(a: Seq<u8>, b: Seq<u8>)
    requires
        a.len() == b.len(),
    ensures
        covers(merged(a, b), a),
        covers(merged(a, b), b),
        within_rank(a) && within_rank(b) ==> within_rank(merged(a, b)),
{
}

/// Raising registers can only lower the two numbers an estimate is read
/// from: an array that is at least another at every position has at most as
/// many zeros and at most as large a harmonic sum.
pub proof fn lemma_covering_lowers_counts(a: Seq<u8>, b: Seq<u8>)
    requires
        covers(a, b),
        within_rank(a),
    ensures
        zero_count(a) <= zero_count(b),
        weighted_sum(a) <= weighted_sum(b),
    decreases a.len(),
{
    if a.len() > 0 {
        lemma_covering_lowers_counts(a.drop_last(), b.drop_last());
        let high = a.last();
        let low = b.last();
        if low < high {
            lemma_pow2_strictly_increases((64 - high) as nat, (64 - low) as nat);
        }
    }
}

/// An array of zeros has only zeros, and each of them weighs `2^64`.
pub proof fn lemma_blank_counts(len: nat)
    ensures
        zero_count(blank(len)) == len,
        weighted_sum(blank(len)) == len * 0x1_0000_0000_0000_0000,
        within_rank(blank(len)),
    decreases len,
{
    lemma2_to64();
    if len > 0 {
        assert(blank(len).drop_last() =~= blank((len - 1) as nat));
        lemma_blank_counts((len - 1) as nat);
    }
}

/// There are at most as many zeros as registers, and no register weighs
/// more than `2^64`.
pub proof fn lemma_counts_bounded(registers: Seq<u8>)
    ensures
        zero_count(registers) <= registers.len(),
        within_rank(registers) ==> weighted_sum(registers) <= registers.len() * 0x1_0000_0000_0000_0000,
    decreases registers.len(),
{
    lemma2_to64();
    if registers.len() > 0 {
        lemma_counts_bounded(registers.drop_last());
        let last = registers.last();
        if within_rank(registers) && last > 0 {
            lemma_pow2_strictly_increases((64 - last) as nat, 64);
        }
    }
}

/// A register holds the highest rank it has seen: after any observations,
/// each register is the larger of what it was and the peak of the
/// observations that fell on it. From zeros, it is that peak.
pub proof fn lemma_registers_hold_peaks(registers: Seq<u8>, observations: Seq<(int, u8)>)
    requires
        in_range(observations, registers.len()),
    ensures
        observed_all(registers, observations).len() == registers.len(),
        forall|i: int|
            0 <= i < registers.len() ==> #[trigger] observed_all(registers, observations)[i] == higher(
                registers[i],
                peak(observations, i),
            ),
        covers(observed_all(registers, observations), registers),
    decreases observations.len(),
{
    if observations.len() > 0 {
        let earlier = observations.drop_last();
        assert(in_range(earlier, registers.len())) by {
            assert forall|k: int| 0 <= k < earlier.len() implies 0 <= (#[trigger] earlier[k]).0
                < registers.len() by {
                assert(earlier[k] == observations[k]);
            }
        }
        lemma_registers_hold_peaks(registers, earlier);
        assert(observations.last() == observations[observations.len() - 1]);
    }
}

/// The peak of two runs of observations, one after the other, is the larger of their peaks.
pub proof fn lemma_peak_of_both(first: Seq<(int, u8)>, second: Seq<(int, u8)>, index: int)
    ensures
        peak(first + second, index) == higher(peak(first, index), peak(second, index)),
    decreases second.len(),
{
    if second.len() == 0 {
        assert(first + second =~= first);
    } else {
        assert((first + second).drop_last() =~= first + second.drop_last());
        assert((first + second).last() == second.last());
        lemma_peak_of_both(first, second.drop_last(), index);
    }
}

/// Merging is taking the union: the merge of two register arrays that each
/// saw their own observations is the array that the merge of where they
/// started would be after seeing all of them.
pub proof fn lemma_merge_is_union(
    a: Seq<u8>,
    seen_by_a: Seq<(int, u8)>,
    b: Seq<u8>,
    seen_by_b: Seq<(int, u8)>,
)
    requires
        a.len() == b.len(),
        in_range(seen_by_a, a.len()),
        in_range(seen_by_b, b.len()),
    ensures
        merged(observed_all(a, seen_by_a), observed_all(b, seen_by_b)) == observed_all(
            merged(a, b),
            seen_by_a + seen_by_b,
        ),
{
    let all = seen_by_a + seen_by_b;
    assert(in_range(all, a.len())) by {
        assert forall|k: int| 0 <= k < all.len() implies 0 <= (#[trigger] all[k]).0 < a.len() by {
            if k < seen_by_a.len() {
                assert(all[k] == seen_by_a[k]);
            } else {
                assert(all[k] == seen_by_b[k - seen_by_a.len()]);
            }
        }
    }
    lemma_registers_hold_peaks(a, seen_by_a);
    lemma_registers_hold_peaks(b, seen_by_b);
    lemma_registers_hold_peaks(merged(a, b), all);
    let left = merged(observed_all(a, seen_by_a), observed_all(b, seen_by_b));
    let right = observed_all(merged(a, b), all);
    assert forall|i: int| 0 <= i < a.len() implies left[i] == right[i] by {
        lemma_peak_of_both(seen_by_a, seen_by_b, i);
    }
    assert(left =~= right);
}

/// The order of observations does not matter: two runs of observations
/// leave the same registers whichever comes first.
pub proof fn lemma_order_is_irrelevant(
    registers: Seq<u8>,
    first: Seq<(int, u8)>,
    second: Seq<(int, u8)>,
)
    requires
        in_range(first, registers.len()),
        in_range(second, registers.len()),
    ensures
        observed_all(registers, first + second) == observed_all(registers, second + first),
{
    lemma_registers_hold_peaks(registers, first);
    lemma_registers_hold_peaks(registers, second);
    lemma_merge_idempotent(registers);
    lemma_merge_is_union(registers, first, registers, second);
    lemma_merge_is_union(registers, second, registers, first);
    lemma_merge_commutative(observed_all(registers, first), observed_all(registers, second));
}

} // verus!
