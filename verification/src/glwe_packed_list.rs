//! The persisted compaction artifact: an ordered sequence of compressed
//! GLWE groups plus the global metadata needed to locate and decode any
//! scalar slot.  Slot `i` resides in chunk `i / lwe_per_glwe` at local
//! offset `i % lwe_per_glwe`.

use vstd::prelude::*;

use crate::compressed_glwe::CompressedModulusSwitchedGlweCiphertext;
use crate::parameters::{
    CarryModulus, CiphertextModulus, CiphertextConformanceParams, GlweDimension, MessageModulus,
    PBSOrder, PolynomialSize,
};

verus! {

/// The chunk a global slot index belongs to.
pub open spec fn slot_chunk(index: int, lwe_per_glwe: int) -> int {
    index / lwe_per_glwe
}

/// The local offset of a global slot index inside its chunk.
pub open spec fn slot_offset(index: int, lwe_per_glwe: int) -> int {
    index % lwe_per_glwe
}

/// How many chunks a list of `count` slots occupies.
pub open spec fn chunk_count(count: int, lwe_per_glwe: int) -> int {
    (count + lwe_per_glwe - 1) / lwe_per_glwe
}

/// How many valid slots chunk `c` of a list of `count` slots holds.
pub open spec fn chunk_bodies(count: int, lwe_per_glwe: int, c: int) -> int {
    if count - c * lwe_per_glwe < lwe_per_glwe {
        count - c * lwe_per_glwe
    } else {
        lwe_per_glwe
    }
}

/// Every slot index splits uniquely into a chunk and an offset, and
/// walking one slot forward either stays in the chunk or moves to offset
/// zero of the next one: in particular the slots on either side of a
/// chunk boundary land in adjacent chunks.
pub proof fn lemma_slot_location(index: int, lwe_per_glwe: int)
    requires
        0 <= index,
        1 <= lwe_per_glwe,
    ensures
        index == slot_chunk(index, lwe_per_glwe) * lwe_per_glwe + slot_offset(
            index,
            lwe_per_glwe,
        ),
        0 <= slot_offset(index, lwe_per_glwe) < lwe_per_glwe,
        0 <= slot_chunk(index, lwe_per_glwe),
        slot_offset(index, lwe_per_glwe) == lwe_per_glwe - 1 ==> slot_chunk(
            index + 1,
            lwe_per_glwe,
        ) == slot_chunk(index, lwe_per_glwe) + 1 && slot_offset(index + 1, lwe_per_glwe) == 0,
        slot_offset(index, lwe_per_glwe) < lwe_per_glwe - 1 ==> slot_chunk(
            index + 1,
            lwe_per_glwe,
        ) == slot_chunk(index, lwe_per_glwe) && slot_offset(index + 1, lwe_per_glwe)
            == slot_offset(index, lwe_per_glwe) + 1,
{
    vstd::arithmetic::div_mod::lemma_fundamental_div_mod(index, lwe_per_glwe);
    vstd::arithmetic::div_mod::lemma_mod_bound(index, lwe_per_glwe);
    let c = slot_chunk(index, lwe_per_glwe);
    let o = slot_offset(index, lwe_per_glwe);
    assert(0 <= c) by {
        vstd::arithmetic::div_mod::lemma_div_is_ordered(0, index, lwe_per_glwe);
    }
    assert((c + 1) * lwe_per_glwe == c * lwe_per_glwe + lwe_per_glwe) by (nonlinear_arith);
    vstd::arithmetic::mul::lemma_mul_is_commutative(lwe_per_glwe, c);
    if o == lwe_per_glwe - 1 {
        vstd::arithmetic::div_mod::lemma_fundamental_div_mod_converse(
            index + 1,
            lwe_per_glwe,
            c + 1,
            0,
        );
    } else {
        vstd::arithmetic::div_mod::lemma_fundamental_div_mod_converse(
            index + 1,
            lwe_per_glwe,
            c,
            o + 1,
        );
    }
}

/// An ordered sequence of compressed GLWE groups and the shared metadata
/// of all the scalar ciphertexts packed into them.  Immutable once built.
pub struct GlwePackedCiphertextList {
    pub compressed_modulus_switched_lwe_ciphertext: Vec<CompressedModulusSwitchedGlweCiphertext>,
    pub glwe_dimension: GlweDimension,
    pub polynomial_size: PolynomialSize,
    pub ciphertext_modulus: CiphertextModulus,
    pub message_modulus: MessageModulus,
    pub carry_modulus: CarryModulus,
    pub pbs_order: PBSOrder,
    pub lwe_per_glwe: usize,
    pub count: usize,
}

impl GlwePackedCiphertextList {
    /// Whether this list matches the expected conformance parameters:
    /// chunk capacity within the polynomial size, and the modulus,
    /// plaintext space and compute order all as expected.
    pub fn is_conformant(&self, params: &CiphertextConformanceParams) -> (r: bool)
        ensures
            r == (self.lwe_per_glwe <= self.polynomial_size.0 && self.ciphertext_modulus
                == params.ct_modulus && self.message_modulus == params.message_modulus
                && self.carry_modulus == params.carry_modulus && self.pbs_order
                == params.pbs_order),
    {
        self.lwe_per_glwe <= self.polynomial_size.0 && self.ciphertext_modulus == params.ct_modulus
            && self.message_modulus == params.message_modulus && self.carry_modulus
            == params.carry_modulus && self.pbs_order == params.pbs_order
    }

    pub open spec fn wf(&self) -> bool {
        &&& 1 <= self.lwe_per_glwe <= self.polynomial_size.0
        &&& 1 <= self.polynomial_size.0 <= 0x10_0000
        &&& 1 <= self.message_modulus.0
        &&& 1 <= self.carry_modulus.0
        &&& self.count <= 0x1000_0000
        &&& self.compressed_modulus_switched_lwe_ciphertext@.len() == chunk_count(
            self.count as int,
            self.lwe_per_glwe as int,
        )
        &&& forall|c: int|
            0 <= c < self.compressed_modulus_switched_lwe_ciphertext@.len() ==> {
                let g = #[trigger] self.compressed_modulus_switched_lwe_ciphertext@[c];
                &&& g.wf()
                &&& g.glwe_dimension == self.glwe_dimension
                &&& g.polynomial_size == self.polynomial_size
                &&& g.bodies_count == chunk_bodies(
                    self.count as int,
                    self.lwe_per_glwe as int,
                    c,
                )
            }
    }
}

} // verus!
