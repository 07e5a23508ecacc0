//! The classic sketch: one register index and one rank from the whole hash.

use vstd::prelude::*;
use vstd::arithmetic::power2::{pow2, lemma2_to64};
use std::hash::Hash;
use crate::codec::{
    base64_text, decode_registers, decoded, encodable_len, encode_registers, field_name, lz4_frame,
    DecodeError, EncodeError, SerializedForm, COMPRESSION_LEVEL,
};
use crate::estimator::{estimate_of, estimate_registers, Estimate};
use crate::projector::{
    classic_add, classic_step, hash_key, is_register_count, register_count, valid_precision,
    valid_register_count,
};
use crate::registers::{blank, blank_registers, covers, merge_registers, merged, within_rank, ConfigError};
use crate::{M, P};

verus! {

/// A cardinality sketch that follows the classic policy.
#[derive(Debug)]
pub struct HyperLogLog {
    /// One counter per register; their number is a power of two.
    pub registers: Vec<u8>,
}

impl View for HyperLogLog {
    type V = Seq<u8>;

    /// The registers, in their order.
    open spec fn view(&self) -> Seq<u8> {
        self.registers@
    }
}

impl HyperLogLog {
    /// Whether the sketch has a register count that a sketch can have.
    pub open spec fn wf(&self) -> bool {
        valid_register_count(self@.len())
    }

    /// An empty sketch of the default precision.
    pub fn new() -> (sketch: Self)
        ensures
            sketch.wf(),
            sketch@ == blank(M as nat),
    {
        proof {
            lemma2_to64();
            assert(1usize << 20 == 0x10_0000) by (bit_vector);
        }
        Self::with_precision(P as u32)
    }

    /// An empty sketch of `2^precision` registers.
    pub fn with_precision(precision: u32) -> (sketch: Self)
        requires
            valid_precision(precision as nat),
        ensures
            sketch.wf(),
            sketch@ == blank(pow2(precision as nat)),
    {
        HyperLogLog { registers: blank_registers(register_count(precision)) }
    }

    /// A sketch over the given registers, if their number is one a sketch can have.
    pub fn from_registers(registers: Vec<u8>) -> (made: Option<Self>)
        ensures
            match made {
                Some(sketch) => sketch.wf() && sketch@ == registers@,
                None => !valid_register_count(registers@.len()),
            },
    {
        if is_register_count(registers.len()) {
            Some(HyperLogLog { registers })
        } else {
            None
        }
    }

    /// Adds a key: the key is hashed, and its hash is added as by [`Self::add_hash`].
    pub fn add<T: Hash>(&mut self, item: T)
        requires
            old(self).wf(),
        ensures
            final(self).wf(),
            exists|hash: u64| final(self)@ == classic_step(old(self)@, hash),
            covers(final(self)@, old(self)@),
            within_rank(old(self)@) ==> within_rank(final(self)@),
    {
        let hash = hash_key(&item);
        self.add_hash(hash);
    }

    /// Adds a hash: the register that its low bits select is raised to the
    /// rank of its remaining bits, if it was lower.
    pub fn add_hash(&mut self, hash: u64)
        requires
            old(self).wf(),
        ensures
            final(self).wf(),
            final(self)@ == classic_step(old(self)@, hash),
            covers(final(self)@, old(self)@),
            within_rank(old(self)@) ==> within_rank(final(self)@),
    {
        classic_add(&mut self.registers, hash);
    }

    /// The estimate of the number of distinct keys added, as the formula to
    /// evaluate and the integers to evaluate it on.
    pub fn estimate(&self) -> (e: Estimate)
        requires
            self.wf(),
            within_rank(self@),
        ensures
            e == estimate_of(self@),
            e.is_defined(),
    {
        estimate_registers(&self.registers)
    }

    /// Merges another sketch into this one, register by register, keeping
    /// the larger value. Sketches of different sizes are not merged.
    pub fn merge(&mut self, other: &HyperLogLog) -> (r: Result<(), ConfigError>)
        ensures
            covers(final(self)@, old(self)@),
            within_rank(old(self)@) && within_rank(other@) ==> within_rank(
                final(self)@,
            ),
            old(self).wf() ==> final(self).wf(),
            old(self)@.len() == other@.len() ==> r is Ok && final(self)@
                == merged(old(self)@, other@),
            old(self)@.len() != other@.len() ==> final(self)@ == old(
                self,
            ).registers@ && r == Err::<(), ConfigError>(
                ConfigError::ShapeMismatch {
                    expected: old(self).registers.len(),
                    found: other.registers.len(),
                },
            ),
    {
        merge_registers(&mut self.registers, &other.registers)
    }

    /// The persistent form of the sketch: one field named `registers` that
    /// holds the base64 text of the LZ4 frame of the registers. It reads
    /// back as a sketch with the same registers.
    pub fn to_serialized(&self) -> (r: Result<SerializedForm, EncodeError>)
        ensures
            match r {
                Ok(form) => {
                    &&& form@ == seq![(field_name(), base64_text(lz4_frame(self@, COMPRESSION_LEVEL)))]
                    &&& decoded(form@, self@.len()) == Ok::<Seq<u8>, DecodeError>(self@)
                },
                Err(EncodeError::Oversize) => !encodable_len(
                    lz4_frame(self@, COMPRESSION_LEVEL).len(),
                ),
                Err(EncodeError::Compression) => true,
            },
    {
        encode_registers(&self.registers)
    }

    /// Reads a sketch of `count` registers from its persistent form.
    pub fn from_serialized(form: &SerializedForm, count: usize) -> (r: Result<Self, DecodeError>)
        requires
            valid_register_count(count as nat),
        ensures
            match decoded(form@, count as nat) {
                Ok(registers) => r matches Ok(sketch) && sketch.wf() && sketch@ == registers,
                Err(e) => r matches Err(f) && f == e,
            },
    {
        match decode_registers(form, count) {
            Ok(registers) => Ok(HyperLogLog { registers }),
            Err(e) => Err(e),
        }
    }
}

impl Default for HyperLogLog {
    /// An empty sketch of the default precision.
    fn default() -> (sketch: Self)
        ensures
            sketch.wf(),
            sketch@ == blank(M as nat),
    {
        Self::new()
    }
}

impl Clone for HyperLogLog {
    /// A second sketch with the same registers.
    fn clone(&self) -> (copy: Self)
        ensures
            copy@ == self@,
    {
        HyperLogLog { registers: self.registers.clone() }
    }
}

} // verus!
