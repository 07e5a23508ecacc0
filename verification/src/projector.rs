//! From a 64-bit hash to a register index and a rank.
//!
//! The low `p` bits of a hash select one of `2^p` registers. The rank is taken
//! from the bits above them: one more than the number of leading zero bits of
//! that field. Two policies are offered. The classic one reads the whole hash;
//! the lane policy splits it into two 32-bit halves.

use vstd::prelude::*;
use vstd::arithmetic::div_mod::{lemma_div_by_multiple, lemma_div_by_multiple_is_strongly_ordered};
use vstd::arithmetic::power2::{
    lemma2_to64, lemma_pow2_adds, lemma_pow2_pos, lemma_pow2_strictly_increases, lemma_pow2_unfold,
    pow2,
};
use vstd::bits::{
    lemma_low_bits_mask_unfold, lemma_u64_low_bits_mask_is_mod, lemma_u64_pow2_no_overflow,
    lemma_u64_shl_is_mul, lemma_u64_shr_is_div, low_bits_mask,
};
use vstd::std_specs::bits::u64_leading_zeros;
use crate::registers::{
    blank, covers, in_range, lemma_merge_idempotent, lemma_merge_is_union,
    lemma_registers_hold_peaks, merged, observe, observed, observed_all, peak, within_rank,
};
use std::hash::{Hash, Hasher};

verus! {

/// Smallest supported precision: two registers.
pub const MIN_PRECISION: u32 = 1;

/// Largest supported precision: `2^30` registers.
pub const MAX_PRECISION: u32 = 30;

/// Whether `p` is a supported precision.
pub open spec fn valid_precision(p: nat) -> bool {
    MIN_PRECISION <= p <= MAX_PRECISION
}

/// Number of bits needed to write `w` in binary; zero for zero.
pub open spec fn bit_length(w: nat) -> nat
    decreases w,
{
    if w == 0 {
        0
    } else {
        1 + bit_length(w / 2)
    }
}

/// Rank of the `width`-bit field `w`: its number of leading zero bits, plus one.
pub open spec fn rank_of(w: nat, width: nat) -> nat
    recommends
        w < pow2(width),
{
    (width - bit_length(w) + 1) as nat
}

/// The precision that belongs to a register count of `2^p`: `p`.
pub open spec fn precision_of(count: nat) -> nat {
    bit_length(count / 2)
}

/// Whether `count` is a register count a sketch can have: a power of two with a supported exponent.
pub open spec fn valid_register_count(count: nat) -> bool {
    valid_precision(precision_of(count)) && count == pow2(precision_of(count))
}

/// Register selected by `hash` under the classic policy: its low `p` bits.
pub open spec fn classic_index(hash: u64, p: nat) -> nat {
    hash as nat % pow2(p)
}

/// Rank of `hash` under the classic policy, from the `64 - p` bits above the index.
pub open spec fn classic_rank(hash: u64, p: nat) -> nat {
    rank_of(hash as nat / pow2(p), (64 - p) as nat)
}

/// The low 32 bits of a hash.
pub open spec fn low_lane(hash: u64) -> nat {
    hash as nat % 0x1_0000_0000
}

/// The high 32 bits of a hash.
pub open spec fn high_lane(hash: u64) -> nat {
    hash as nat / 0x1_0000_0000
}

/// The smaller of two numbers.
pub open spec fn lesser(a: nat, b: nat) -> nat {
    if a <= b { a } else { b }
}

/// Register selected by `hash` under the lane policy: the low `p` bits of the low lane.
pub open spec fn lane_index(hash: u64, p: nat) -> nat {
    low_lane(hash) % pow2(p)
}

/// Rank of `hash` under the lane policy: each lane offers the `32 - p` bits
/// above its index bits, and the smaller of the two fields is ranked.
pub open spec fn lane_rank(hash: u64, p: nat) -> nat {
    rank_of(lesser(low_lane(hash) / pow2(p), high_lane(hash) / pow2(p)), (32 - p) as nat)
}

/// The registers after a hash was added under the classic policy.
pub open spec fn classic_step(registers: Seq<u8>, hash: u64) -> Seq<u8>
    recommends
        valid_register_count(registers.len()),
{
    let p = precision_of(registers.len());
    observed(registers, classic_index(hash, p) as int, classic_rank(hash, p) as u8)
}

/// The registers after a hash was added under the lane policy.
pub open spec fn lane_step(registers: Seq<u8>, hash: u64) -> Seq<u8>
    recommends
        valid_register_count(registers.len()),
{
    let p = precision_of(registers.len());
    observed(registers, lane_index(hash, p) as int, lane_rank(hash, p) as u8)
}

/// The registers after the same hash was added `times` times under the classic policy.
pub open spec fn classic_repeated(registers: Seq<u8>, hash: u64, times: nat) -> Seq<u8>
    decreases times,
{
    if times == 0 {
        registers
    } else {
        classic_step(classic_repeated(registers, hash, (times - 1) as nat), hash)
    }
}

/// The registers after the same hash was added `times` times under the lane policy.
pub open spec fn lane_repeated(registers: Seq<u8>, hash: u64, times: nat) -> Seq<u8>
    decreases times,
{
    if times == 0 {
        registers
    } else {
        lane_step(lane_repeated(registers, hash, (times - 1) as nat), hash)
    }
}

/// What a run of hashes makes the registers of a sketch of precision `p`
/// see under the classic policy: for each hash, its register and its rank.
pub open spec fn classic_observations(hashes: Seq<u64>, p: nat) -> Seq<(int, u8)> {
    Seq::new(
        hashes.len(),
        |k: int| (classic_index(hashes[k], p) as int, classic_rank(hashes[k], p) as u8),
    )
}

/// What a run of hashes makes the registers of a sketch of precision `p`
/// see under the lane policy.
pub open spec fn lane_observations(hashes: Seq<u64>, p: nat) -> Seq<(int, u8)> {
    Seq::new(hashes.len(), |k: int| (lane_index(hashes[k], p) as int, lane_rank(hashes[k], p) as u8))
}

/// The registers of a classic sketch of precision `p` that was empty and
/// then had the given hashes added.
pub open spec fn classic_sketch(hashes: Seq<u64>, p: nat) -> Seq<u8> {
    observed_all(blank(pow2(p)), classic_observations(hashes, p))
}

/// The registers of a lane sketch of precision `p` that was empty and then
/// had the given hashes added.
pub open spec fn lane_sketch(hashes: Seq<u64>, p: nat) -> Seq<u8> {
    observed_all(blank(pow2(p)), lane_observations(hashes, p))
}

/// A value below `2^width` has at most `width` bits.
pub proof fn lemma_bit_length_bound(w: nat, width: nat)
    requires
        w < pow2(width),
    ensures
        bit_length(w) <= width,
    decreases width,
{
    if w != 0 {
        lemma_pow2_pos(width);
        if width == 0 {
            lemma2_to64();
        } else {
            lemma_pow2_unfold(width);
            lemma_bit_length_bound(w / 2, (width - 1) as nat);
        }
    }
}

/// A power of two `2^p` is written with `p + 1` bits.
pub proof fn lemma_bit_length_pow2(p: nat)
    ensures
        bit_length(pow2(p)) == p + 1,
    decreases p,
{
    lemma_pow2_pos(p);
    if p == 0 {
        lemma2_to64();
        assert(bit_length(1) == 1 + bit_length(0));
    } else {
        lemma_pow2_unfold(p);
        assert(pow2(p) / 2 == pow2((p - 1) as nat));
        lemma_bit_length_pow2((p - 1) as nat);
    }
}

/// The hardware count of leading zeros is `64` less the bit length.
pub proof fn lemma_leading_zeros(w: u64)
    ensures
        u64_leading_zeros(w) == 64 - bit_length(w as nat),
    decreases w,
{
    reveal(u64_leading_zeros);
    if w != 0 {
        lemma_leading_zeros(w / 2);
    }
}

/// A register count of supported precision is at most `2^30`.
pub proof fn lemma_register_count_fits(p: nat)
    requires
        valid_precision(p),
    ensures
        2 <= pow2(p) <= 0x4000_0000,
{
    lemma2_to64();
    if p < 30 {
        lemma_pow2_strictly_increases(p, 30);
    }
    if 1 < p {
        lemma_pow2_strictly_increases(1, p);
    }
}

/// What is left of a `bits`-bit value after its low `p` bits are dropped fits in `bits - p` bits.
pub proof fn lemma_field_fits(value: nat, bits: nat, p: nat)
    requires
        p <= bits,
        value < pow2(bits),
    ensures
        value / pow2(p) < pow2((bits - p) as nat),
{
    lemma_pow2_pos(p);
    lemma_pow2_adds(p, (bits - p) as nat);
    lemma_div_by_multiple_is_strongly_ordered(
        value as int,
        pow2(bits) as int,
        pow2((bits - p) as nat) as int,
        pow2(p) as int,
    );
    lemma_div_by_multiple(pow2((bits - p) as nat) as int, pow2(p) as int);
}

/// The low `p` bits of a value are a number below `2^p`.
pub proof fn lemma_index_fits(value: nat, p: nat)
    ensures
        value % pow2(p) < pow2(p),
{
    lemma_pow2_pos(p);
    assert(value % pow2(p) < pow2(p)) by (nonlinear_arith)
        requires
            pow2(p) > 0,
    ;
}

/// The number of registers of a sketch of the given precision: `2^precision`.
pub fn register_count(precision: u32) -> (count: usize)
    requires
        valid_precision(precision as nat),
    ensures
        count == pow2(precision as nat),
        valid_register_count(count as nat),
        precision_of(count as nat) == precision,
{
    proof {
        lemma_u64_pow2_no_overflow(precision as nat);
        lemma_u64_shl_is_mul(1u64, precision as u64);
        lemma_register_count_fits(precision as nat);
        lemma_bit_length_pow2(precision as nat);
    }
    let count: u64 = 1u64 << precision;
    count as usize
}

/// Whether a sketch can have `count` registers: whether `count` is `2^p` for a supported `p`.
pub fn is_register_count(count: usize) -> (ok: bool)
    ensures
        ok == valid_register_count(count as nat),
{
    if count == 0 {
        proof {
            lemma_pow2_pos(precision_of(0));
        }
        return false;
    }
    let wide: u64 = count as u64;
    let zeros: u32 = wide.leading_zeros();
    proof {
        lemma_leading_zeros(wide);
    }
    let precision: u32 = 63 - zeros;
    if precision < MIN_PRECISION || precision > MAX_PRECISION {
        return false;
    }
    proof {
        lemma_u64_pow2_no_overflow(precision as nat);
        lemma_u64_shl_is_mul(1u64, precision as u64);
    }
    (1u64 << precision) == wide
}

/// The precision of a sketch that has `count` registers.
pub fn precision_from_count(count: usize) -> (precision: u32)
    requires
        valid_register_count(count as nat),
    ensures
        precision == precision_of(count as nat),
        valid_precision(precision as nat),
        count == pow2(precision as nat),
{
    let wide: u64 = count as u64;
    let zeros: u32 = wide.leading_zeros();
    proof {
        lemma_pow2_pos(precision_of(count as nat));
        lemma_leading_zeros(wide);
    }
    63 - zeros
}

/// Splits `hash` the classic way: the low `precision` bits give the register,
/// the remaining bits give the rank.
pub fn classic_project(hash: u64, precision: u32) -> (r: (usize, u8))
    requires
        valid_precision(precision as nat),
    ensures
        r.0 == classic_index(hash, precision as nat),
        r.1 == classic_rank(hash, precision as nat),
        r.0 < pow2(precision as nat),
        1 <= r.1 <= 64 - precision + 1,
{
    let ghost p = precision as nat;
    proof {
        lemma_u64_pow2_no_overflow(p);
        lemma_u64_shl_is_mul(1u64, precision as u64);
        lemma_low_bits_mask_unfold(p);
        lemma_u64_low_bits_mask_is_mod(hash, p);
        lemma_u64_shr_is_div(hash, precision as u64);
        lemma_pow2_pos(p);
    }
    let mask: u64 = (1u64 << precision) - 1;
    let index: u64 = hash & mask;
    let field: u64 = hash >> precision;
    let zeros: u32 = field.leading_zeros();
    proof {
        assert(mask == low_bits_mask(p)) by {
            lemma_pow2_unfold(p);
        }
        assert(index == hash as nat % pow2(p));
        assert(field == hash as nat / pow2(p));
        lemma2_to64();
        lemma_register_count_fits(p);
        lemma_field_fits(hash as nat, 64, p);
        lemma_leading_zeros(field);
        lemma_bit_length_bound(field as nat, (64 - p) as nat);
    }
    (index as usize, (zeros - precision + 1) as u8)
}

/// Splits `hash` by lanes: the register comes from the low `precision` bits
/// of the low 32-bit lane; the rank comes from the smaller of the two lanes'
/// fields above their index bits.
pub fn lane_project(hash: u64, precision: u32) -> (r: (usize, u8))
    requires
        valid_precision(precision as nat),
    ensures
        r.0 == lane_index(hash, precision as nat),
        r.1 == lane_rank(hash, precision as nat),
        r.0 < pow2(precision as nat),
        1 <= r.1 <= 32 - precision + 1,
{
    let ghost p = precision as nat;
    let low: u64 = hash & 0xffff_ffff;
    let high: u64 = hash >> 32;
    proof {
        assert(low == hash % 0x1_0000_0000) by (bit_vector)
            requires
                low == hash & 0xffff_ffff,
        ;
        assert(high == hash / 0x1_0000_0000) by (bit_vector)
            requires
                high == hash >> 32,
        ;
        lemma_u64_pow2_no_overflow(p);
        lemma_u64_shl_is_mul(1u64, precision as u64);
        lemma_low_bits_mask_unfold(p);
        lemma_u64_low_bits_mask_is_mod(low, p);
        lemma_u64_shr_is_div(low, precision as u64);
        lemma_u64_shr_is_div(high, precision as u64);
        lemma_pow2_pos(p);
        lemma2_to64();
    }
    let mask: u64 = (1u64 << precision) - 1;
    let index: u64 = low & mask;
    let low_field: u64 = low >> precision;
    let high_field: u64 = high >> precision;
    let field: u64 = if low_field <= high_field { low_field } else { high_field };
    let zeros: u32 = field.leading_zeros();
    proof {
        assert(mask == low_bits_mask(p)) by {
            lemma_pow2_unfold(p);
        }
        assert(index == low_lane(hash) % pow2(p));
        assert(field == lesser(low_lane(hash) / pow2(p), high_lane(hash) / pow2(p)));
        lemma_register_count_fits(p);
        lemma_field_fits(low as nat, 32, p);
        lemma_field_fits(high as nat, 32, p);
        lemma_leading_zeros(field);
        lemma_bit_length_bound(field as nat, (32 - p) as nat);
    }
    (index as usize, (zeros - 32 - precision + 1) as u8)
}

/// `Hash::hash` of the key into a `SeaHasher` with its default seeds, then
/// `Hasher::finish`. Trusted without a contract: what the key feeds to the
/// hasher is up to the key's own `Hash`.
#[verifier::external_body]
pub(crate) fn hash_key<T: Hash>(key: &T) -> u64 {
    let mut hasher = seahash::SeaHasher::new();
    key.hash(&mut hasher);
    hasher.finish()
}

/// Adds a hash to a register array under the classic policy.
pub fn classic_add(registers: &mut Vec<u8>, hash: u64)
    requires
        valid_register_count(old(registers)@.len()),
    ensures
        final(registers)@ == classic_step(old(registers)@, hash),
        final(registers)@.len() == old(registers)@.len(),
        covers(final(registers)@, old(registers)@),
        within_rank(old(registers)@) ==> within_rank(final(registers)@),
{
    let precision = precision_from_count(registers.len());
    let (index, rank) = classic_project(hash, precision);
    observe(registers, index, rank);
}

/// Adds a hash to a register array under the lane policy.
pub fn lane_add(registers: &mut Vec<u8>, hash: u64)
    requires
        valid_register_count(old(registers)@.len()),
    ensures
        final(registers)@ == lane_step(old(registers)@, hash),
        final(registers)@.len() == old(registers)@.len(),
        covers(final(registers)@, old(registers)@),
        within_rank(old(registers)@) ==> within_rank(final(registers)@),
{
    let precision = precision_from_count(registers.len());
    let (index, rank) = lane_project(hash, precision);
    observe(registers, index, rank);
}

/// Every rank lies between one and the field width plus one; it reaches
/// the upper end only for a field of zeros.
pub proof fn lemma_rank_range(w: nat, width: nat)
    requires
        w < pow2(width),
    ensures
        1 <= rank_of(w, width) <= width + 1,
        w != 0 ==> rank_of(w, width) <= width,
{
    lemma_bit_length_bound(w, width);
}

/// Adding a hash a second time changes nothing, under either policy.
pub proof fn lemma_step_idempotent(registers: Seq<u8>, hash: u64)
    requires
        valid_register_count(registers.len()),
    ensures
        classic_step(classic_step(registers, hash), hash) == classic_step(registers, hash),
        lane_step(lane_step(registers, hash), hash) == lane_step(registers, hash),
{
    let p = precision_of(registers.len());
    lemma_pow2_pos(p);
    assert(classic_index(hash, p) < registers.len()) by (nonlinear_arith)
        requires
            classic_index(hash, p) == hash as nat % pow2(p),
            registers.len() == pow2(p),
            pow2(p) > 0,
    ;
    assert(lane_index(hash, p) < registers.len()) by (nonlinear_arith)
        requires
            lane_index(hash, p) == low_lane(hash) % pow2(p),
            registers.len() == pow2(p),
            pow2(p) > 0,
    ;
    assert(classic_step(classic_step(registers, hash), hash) =~= classic_step(registers, hash));
    assert(lane_step(lane_step(registers, hash), hash) =~= lane_step(registers, hash));
}

/// Duplicates do not count: adding the same hash any number of times, at
/// least once, leaves the registers that adding it once leaves.
pub proof fn lemma_duplicates_ignored(registers: Seq<u8>, hash: u64, times: nat)
    requires
        valid_register_count(registers.len()),
        times >= 1,
    ensures
        classic_repeated(registers, hash, times) == classic_step(registers, hash),
        lane_repeated(registers, hash, times) == lane_step(registers, hash),
    decreases times,
{
    if times == 1 {
        assert(classic_repeated(registers, hash, 0) == registers);
        assert(lane_repeated(registers, hash, 0) == registers);
    } else {
        lemma_duplicates_ignored(registers, hash, (times - 1) as nat);
        lemma_step_idempotent(registers, hash);
    }
}

/// Every hash falls on one of the `2^p` registers, under either policy.
pub proof fn lemma_observations_in_range(hashes: Seq<u64>, p: nat)
    ensures
        in_range(classic_observations(hashes, p), pow2(p)),
        in_range(lane_observations(hashes, p), pow2(p)),
{
    lemma_pow2_pos(p);
    assert forall|k: int| 0 <= k < hashes.len() implies 0 <= (#[trigger] classic_observations(
        hashes,
        p,
    )[k]).0 < pow2(p) by {
        lemma_index_fits(hashes[k] as nat, p);
    }
    assert forall|k: int| 0 <= k < hashes.len() implies 0 <= (#[trigger] lane_observations(
        hashes,
        p,
    )[k]).0 < pow2(p) by {
        lemma_index_fits(low_lane(hashes[k]), p);
    }
}

/// A sketch is its stream: adding a hash to the sketch of a run of hashes
/// gives the sketch of the run with that hash at its end. The sketch of no
/// hashes is the empty sketch.
pub proof fn lemma_sketch_follows_stream(hashes: Seq<u64>, hash: u64, p: nat)
    requires
        valid_precision(p),
    ensures
        classic_sketch(Seq::empty(), p) == blank(pow2(p)),
        lane_sketch(Seq::empty(), p) == blank(pow2(p)),
        classic_sketch(hashes, p).len() == pow2(p),
        lane_sketch(hashes, p).len() == pow2(p),
        classic_step(classic_sketch(hashes, p), hash) == classic_sketch(hashes.push(hash), p),
        lane_step(lane_sketch(hashes, p), hash) == lane_sketch(hashes.push(hash), p),
{
    let longer = hashes.push(hash);
    lemma_observations_in_range(hashes, p);
    lemma_registers_hold_peaks(blank(pow2(p)), classic_observations(hashes, p));
    lemma_registers_hold_peaks(blank(pow2(p)), lane_observations(hashes, p));
    lemma_bit_length_pow2(p);
    lemma_pow2_pos(p);
    assert(pow2(p) / 2 == pow2((p - 1) as nat)) by {
        lemma_pow2_unfold(p);
    }
    lemma_bit_length_pow2((p - 1) as nat);
    assert(precision_of(pow2(p)) == p);
    assert(classic_observations(longer, p).drop_last() =~= classic_observations(hashes, p));
    assert(lane_observations(longer, p).drop_last() =~= lane_observations(hashes, p));
    assert(classic_observations(Seq::<u64>::empty(), p).len() == 0);
    assert(lane_observations(Seq::<u64>::empty(), p).len() == 0);
}

/// Each register of a sketch holds the highest rank among the hashes of its
/// stream that fell on it, and zero if none did.
pub proof fn lemma_sketch_holds_peaks(hashes: Seq<u64>, p: nat)
    ensures
        forall|i: int|
            0 <= i < pow2(p) ==> #[trigger] classic_sketch(hashes, p)[i] == peak(
                classic_observations(hashes, p),
                i,
            ),
        forall|i: int|
            0 <= i < pow2(p) ==> #[trigger] lane_sketch(hashes, p)[i] == peak(
                lane_observations(hashes, p),
                i,
            ),
{
    lemma_observations_in_range(hashes, p);
    lemma_registers_hold_peaks(blank(pow2(p)), classic_observations(hashes, p));
    lemma_registers_hold_peaks(blank(pow2(p)), lane_observations(hashes, p));
}

/// Merging two sketches gives the sketch of both streams together: the merge
/// stands for the union of what the two sketches have seen.
pub proof fn lemma_merged_sketches(first: Seq<u64>, second: Seq<u64>, p: nat)
    ensures
        merged(classic_sketch(first, p), classic_sketch(second, p)) == classic_sketch(
            first + second,
            p,
        ),
        merged(lane_sketch(first, p), lane_sketch(second, p)) == lane_sketch(first + second, p),
{
    let empty = blank(pow2(p));
    lemma_observations_in_range(first, p);
    lemma_observations_in_range(second, p);
    lemma_merge_idempotent(empty);
    lemma_merge_is_union(
        empty,
        classic_observations(first, p),
        empty,
        classic_observations(second, p),
    );
    lemma_merge_is_union(empty, lane_observations(first, p), empty, lane_observations(second, p));
    assert(classic_observations(first, p) + classic_observations(second, p)
        =~= classic_observations(first + second, p));
    assert(lane_observations(first, p) + lane_observations(second, p) =~= lane_observations(
        first + second,
        p,
    ));
}

} // verus!
