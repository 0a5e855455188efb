//! Lossy storage form of a GLWE ciphertext: every coefficient is modulus
//! switched down to `log_modulus` bits (rounding to the nearest multiple of
//! the step) and the reduced coefficients are bit-packed.  Extraction
//! re-scales to the full modulus; the value recovered is the original
//! coefficient rounded to the reduced grid, which the scheme's noise budget
//! must absorb before the next bootstrap.

use vstd::prelude::*;

use crate::entities::GlweCiphertext;
use crate::packed_integers::{mask64, PackedIntegers};
use crate::parameters::{
    CiphertextModulus, CiphertextModulusLog, GlweDimension, PolynomialSize,
};

verus! {

/// The reduced form of one coefficient: the nearest `log_modulus`-bit value
/// under modulus switching from the native 64-bit modulus (ties round up,
/// values wrap at the top of the torus).
pub open spec fn switched_coefficient(c: u64, l: int) -> u64 {
    c.wrapping_add(1u64 << ((63 - l) as u64)) >> ((64 - l) as u64)
}

/// The loss of the storage round trip is bounded: re-scaling the reduced
/// coefficient lands within half a step, `2^(63 - l)`, of the original
/// coefficient on the wrapping torus.
pub proof fn lemma_modulus_switch_error_bound(c: u64, l: u64)
    requires
        1 <= l <= 63,
    ensures
        ({
            let recovered = switched_coefficient(c, l as int) << ((64 - l) as u64);
            recovered.wrapping_sub(c) <= (1u64 << ((63 - l) as u64)) || c.wrapping_sub(recovered)
                < (1u64 << ((63 - l) as u64))
        }),
{
    assert(1 <= l <= 63 ==> {
        let recovered = (c.wrapping_add(1u64 << ((63 - l) as u64)) >> ((64 - l) as u64)) << ((64
            - l) as u64);
        recovered.wrapping_sub(c) <= (1u64 << ((63 - l) as u64)) || c.wrapping_sub(recovered) < (
        1u64 << ((63 - l) as u64))
    }) by (bit_vector);
}

/// A whole coefficient sequence at reduced precision.
pub open spec fn switched_seq(coefficients: Seq<u64>, l: int) -> Seq<u64> {
    Seq::new(coefficients.len(), |k: int| switched_coefficient(coefficients[k], l))
}

/// One packed group: a GLWE ciphertext at reduced precision, plus how many
/// of its slots hold valid scalar ciphertexts.
pub struct CompressedModulusSwitchedGlweCiphertext {
    pub packed_integers: PackedIntegers,
    pub glwe_dimension: GlweDimension,
    pub polynomial_size: PolynomialSize,
    pub bodies_count: usize,
    pub uncompressed_ciphertext_modulus: CiphertextModulus,
}

impl CompressedModulusSwitchedGlweCiphertext {
    pub open spec fn wf(&self) -> bool {
        &&& self.packed_integers.wf()
        &&& 1 <= self.packed_integers.log_modulus.0 <= 63
        &&& self.polynomial_size.0 >= 1
        &&& self.polynomial_size.0 <= 0x10_0000
        &&& self.bodies_count <= self.polynomial_size.0
        &&& self.packed_integers.initial_len == (self.glwe_dimension.0 + 1)
            * self.polynomial_size.0
    }

    /// Reduces every coefficient of `glwe` to `log_modulus` bits by
    /// rounding modulus switching, then bit-packs the results.  Records
    /// `bodies_count` as the number of valid slots of the group.
    pub fn compress(
        glwe: &GlweCiphertext,
        log_modulus: CiphertextModulusLog,
        bodies_count: usize,
    ) -> (r: Self)
        requires
            glwe.wf(),
            1 <= log_modulus.0 <= 63,
            glwe.polynomial_size.0 <= 0x10_0000,
            bodies_count <= glwe.polynomial_size.0,
            glwe.data@.len() * 64 <= usize::MAX,
        ensures
            r.wf(),
            r.glwe_dimension.0 == glwe.glwe_size_spec() - 1,
            r.polynomial_size == glwe.polynomial_size,
            r.bodies_count == bodies_count,
            r.packed_integers.log_modulus == log_modulus,
            r.packed_integers.initial_len == glwe.data@.len(),
            // every stored value is the rounded reduced coefficient
            forall|k: int|
                0 <= k < glwe.data@.len() ==> r.packed_integers.contents()[k]
                    == switched_coefficient(glwe.data@[k], log_modulus.0 as int),
            r.packed_integers.contents() =~= switched_seq(glwe.data@, log_modulus.0 as int),
    {
        let l = log_modulus.0;
        let shift = 64 - l;
        let half: u64 = 1u64 << ((shift - 1) as u64);
        let total = glwe.data.len();
        let mut switched: Vec<u64> = Vec::new();
        let mut k: usize = 0;
        while k < total
            invariant
                1 <= l <= 63,
                shift == 64 - l,
                half == 1u64 << ((shift - 1) as u64),
                total == glwe.data.len(),
                k <= total,
                switched@.len() == k,
                forall|k2: int|
                    0 <= k2 < k ==> switched@[k2] == switched_coefficient(
                        glwe.data@[k2],
                        l as int,
                    ),
                forall|k2: int| 0 <= k2 < k ==> switched@[k2] <= mask64(l as u64),
            decreases total - k,
        {
            let c = glwe.data[k];
            let v = c.wrapping_add(half) >> (shift as u64);
            proof {
                let s = shift as u64;
                assert(1 <= s < 64 ==> (c.wrapping_add(half) >> s) <= mask64((64 - s) as u64))
                    by (bit_vector);
            }
            switched.push(v);
            k += 1;
        }
        proof {
            vstd::arithmetic::mul::lemma_mul_inequality(l as int, 64, total as int);
            vstd::arithmetic::mul::lemma_mul_is_commutative(l as int, total as int);
            vstd::arithmetic::mul::lemma_mul_is_commutative(64, total as int);
        }
        let packed_integers = PackedIntegers::pack(switched.as_slice(), log_modulus);
        let glwe_size = glwe.glwe_size();
        proof {
            vstd::arithmetic::div_mod::lemma_fundamental_div_mod_converse(
                glwe.polynomial_size.0 as int,
                glwe.polynomial_size.0 as int,
                1,
                0,
            );
            vstd::arithmetic::div_mod::lemma_div_is_ordered(
                glwe.polynomial_size.0 as int,
                glwe.data@.len() as int,
                glwe.polynomial_size.0 as int,
            );
            assert((glwe.glwe_size_spec() - 1 + 1) * (glwe.polynomial_size.0 as int)
                == glwe.glwe_size_spec() * (glwe.polynomial_size.0 as int)) by (nonlinear_arith);
            vstd::arithmetic::div_mod::lemma_fundamental_div_mod(
                glwe.data@.len() as int,
                glwe.polynomial_size.0 as int,
            );
        }
        CompressedModulusSwitchedGlweCiphertext {
            packed_integers,
            glwe_dimension: GlweDimension(glwe_size.0 - 1),
            polynomial_size: glwe.polynomial_size,
            bodies_count,
            uncompressed_ciphertext_modulus: CiphertextModulus,
        }
    }

    /// Unpacks the stored coefficients and re-scales each back to the full
    /// modulus.  Recovery is approximate by design: the result is the
    /// original coefficient rounded to the reduced grid.
    pub fn extract(&self) -> (r: GlweCiphertext)
        requires
            self.wf(),
        ensures
            r.wf(),
            r.polynomial_size == self.polynomial_size,
            r.glwe_size_spec() == self.glwe_dimension.0 + 1,
            r.data@.len() == self.packed_integers.initial_len,
            forall|k: int|
                0 <= k < r.data@.len() ==> r.data@[k] == (self.packed_integers.contents()[k] << (
                (64 - self.packed_integers.log_modulus.0) as u64)),
    {
        let l = self.packed_integers.log_modulus.0;
        let shift = 64 - l;
        let values = self.packed_integers.unpack();
        let total = values.len();
        let mut data: Vec<u64> = Vec::new();
        let mut k: usize = 0;
        while k < total
            invariant
                shift == 64 - l,
                1 <= l <= 63,
                total == values.len(),
                k <= total,
                data@.len() == k,
                forall|k2: int|
                    0 <= k2 < k ==> data@[k2] == (values@[k2] << ((64 - l) as u64)),
            decreases total - k,
        {
            data.push(values[k] << (shift as u64));
            k += 1;
        }
        proof {
            vstd::arithmetic::mul::lemma_mul_inequality(
                1,
                self.glwe_dimension.0 as int + 1,
                self.polynomial_size.0 as int,
            );
            vstd::arithmetic::div_mod::lemma_fundamental_div_mod_converse(
                data@.len() as int,
                self.polynomial_size.0 as int,
                self.glwe_dimension.0 as int + 1,
                0,
            );
        }
        GlweCiphertext {
            data,
            polynomial_size: self.polynomial_size,
            ciphertext_modulus: CiphertextModulus,
        }
    }
}

} // verus!
