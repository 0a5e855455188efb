//! Plain LWE keyswitch keys, and the shrinking variant whose input and
//! output keys share part of their randomness: only the differing
//! coefficients of the input key are encrypted, so the key material
//! shrinks by the shared amount.

use vstd::prelude::*;

use crate::parameters::{
    CiphertextModulus, DecompositionBaseLog, DecompositionLevelCount, LweDimension, LweSize,
    SharedLweSecretKeyCommonCoefCount, SharedLweSecretKeyDifferingCoefCount,
};

verus! {

/// A keyswitch key between two LWE keys: for every input key element and
/// decomposition level, one LWE encryption under the output key.
pub struct LweKeyswitchKey {
    pub data: Vec<u64>,
    pub decomp_base_log: DecompositionBaseLog,
    pub decomp_level_count: DecompositionLevelCount,
    pub output_lwe_size: LweSize,
    pub ciphertext_modulus: CiphertextModulus,
}

impl LweKeyswitchKey {
    /// Words of one keyswitch entry: `level` LWE ciphertexts.
    pub open spec fn entry_size_spec(&self) -> int {
        (self.decomp_level_count.0 as int) * (self.output_lwe_size.0 as int)
    }

    pub open spec fn input_dimension_spec(&self) -> int {
        (self.data@.len() as int) / self.entry_size_spec()
    }

    pub open spec fn wf(&self) -> bool {
        &&& 1 <= self.decomp_base_log.0 <= 63
        &&& 1 <= self.decomp_level_count.0 <= 64
        &&& 2 <= self.output_lwe_size.0 <= 0x10_0001
        &&& self.data@.len() == self.input_dimension_spec() * self.entry_size_spec()
        &&& self.input_dimension_spec() <= 0x10_0000
    }

    pub fn from_container(
        container: Vec<u64>,
        decomp_base_log: DecompositionBaseLog,
        decomp_level_count: DecompositionLevelCount,
        output_lwe_size: LweSize,
        ciphertext_modulus: CiphertextModulus,
    ) -> (r: Self)
        requires
            1 <= decomp_base_log.0 <= 63,
            1 <= decomp_level_count.0 <= 64,
            2 <= output_lwe_size.0 <= 0x10_0001,
            (container@.len() as int) % ((decomp_level_count.0 as int) * (output_lwe_size.0 as int))
                == 0,
            container@.len() <= 0x10_0000 * ((decomp_level_count.0 as int) * (
            output_lwe_size.0 as int)),
        ensures
            r.wf(),
            r.data@ == container@,
            r.decomp_base_log == decomp_base_log,
            r.decomp_level_count == decomp_level_count,
            r.output_lwe_size == output_lwe_size,
    {
        proof {
            lemma_ksk_entry_bounds(decomp_level_count.0 as int, output_lwe_size.0 as int);
            vstd::arithmetic::div_mod::lemma_fundamental_div_mod(
                container@.len() as int,
                (decomp_level_count.0 as int) * (output_lwe_size.0 as int),
            );
            let entry = (decomp_level_count.0 as int) * (output_lwe_size.0 as int);
            let q = (container@.len() as int) / entry;
            vstd::arithmetic::mul::lemma_mul_is_commutative(entry, q);
            assert(q <= 0x10_0000) by (nonlinear_arith)
                requires
                    q * entry <= 0x10_0000 * entry,
                    entry >= 1,
                    q >= 0,
            ;
        }
        LweKeyswitchKey {
            data: container,
            decomp_base_log,
            decomp_level_count,
            output_lwe_size,
            ciphertext_modulus,
        }
    }

    pub fn decomposition_base_log(&self) -> (r: DecompositionBaseLog)
        ensures
            r == self.decomp_base_log,
    {
        self.decomp_base_log
    }

    pub fn decomposition_level_count(&self) -> (r: DecompositionLevelCount)
        ensures
            r == self.decomp_level_count,
    {
        self.decomp_level_count
    }

    pub fn output_lwe_size(&self) -> (r: LweSize)
        ensures
            r == self.output_lwe_size,
    {
        self.output_lwe_size
    }

    pub fn input_key_lwe_dimension(&self) -> (r: LweDimension)
        requires
            self.wf(),
        ensures
            r.0 == self.input_dimension_spec(),
    {
        proof {
            lemma_ksk_entry_bounds(self.decomp_level_count.0 as int, self.output_lwe_size.0 as int);
            vstd::arithmetic::div_mod::lemma_fundamental_div_mod_converse(
                self.data@.len() as int,
                self.entry_size_spec(),
                self.input_dimension_spec(),
                0,
            );
        }
        LweDimension(self.data.len() / (self.decomp_level_count.0 * self.output_lwe_size.0))
    }

    pub fn input_key_element_encrypted_size(&self) -> (r: usize)
        requires
            self.wf(),
        ensures
            r == self.entry_size_spec(),
    {
        proof {
            lemma_ksk_entry_bounds(self.decomp_level_count.0 as int, self.output_lwe_size.0 as int);
        }
        self.decomp_level_count.0 * self.output_lwe_size.0
    }

    pub fn ciphertext_modulus(&self) -> (r: CiphertextModulus)
        ensures
            r == self.ciphertext_modulus,
    {
        self.ciphertext_modulus
    }

    pub fn into_container(self) -> (r: Vec<u64>)
        ensures
            r@ == self.data@,
    {
        self.data
    }
}

/// The keyswitch entry size is positive and fits a machine word.
proof fn lemma_ksk_entry_bounds(level: int, output_lwe_size: int)
    by (nonlinear_arith)
    requires
        1 <= level <= 64,
        2 <= output_lwe_size <= 0x10_0001,
    ensures
        2 <= level * output_lwe_size <= 0x400_0040,
{
}

/// An LWE keyswitch key whose input and output keys share part of their
/// randomness: only the differing part of the input key is encrypted, so
/// the stored keyswitch key has the unshared dimension as its input.
pub struct LweShrinkingKeyswitchKey {
    pub lwe_ksk: LweKeyswitchKey,
    pub input_key_lwe_dimension: LweDimension,
}

/// An owned shrinking keyswitch key; key material always lives in its own
/// vector here.
pub type LweShrinkingKeyswitchKeyOwned = LweShrinkingKeyswitchKey;

impl LweShrinkingKeyswitchKey {
    pub open spec fn wf(&self) -> bool {
        &&& self.lwe_ksk.wf()
        &&& self.input_key_lwe_dimension.0 == (self.lwe_ksk.output_lwe_size.0 - 1)
            + self.lwe_ksk.input_dimension_spec()
        &&& self.lwe_ksk.input_dimension_spec() <= self.input_key_lwe_dimension.0
    }

    /// Wraps an existing container.  The unshared randomness dimension is
    /// what the container encrypts; the shared dimension is the rest of
    /// the input key, which must not exceed the output dimension.
    pub fn from_container(
        container: Vec<u64>,
        decomp_base_log: DecompositionBaseLog,
        decomp_level_count: DecompositionLevelCount,
        input_key_lwe_dimension: LweDimension,
        output_lwe_size: LweSize,
        ciphertext_modulus: CiphertextModulus,
    ) -> (r: Self)
        requires
            1 <= decomp_base_log.0 <= 63,
            1 <= decomp_level_count.0 <= 64,
            2 <= output_lwe_size.0 <= 0x10_0001,
            (container@.len() as int) % ((decomp_level_count.0 as int) * (output_lwe_size.0 as int))
                == 0,
            container@.len() <= 0x10_0000 * ((decomp_level_count.0 as int) * (
            output_lwe_size.0 as int)),
            // the input key splits into the output key dimension plus the
            // unshared part held by the container
            input_key_lwe_dimension.0 == (output_lwe_size.0 - 1) + (container@.len() as int) / ((
            decomp_level_count.0 as int) * (output_lwe_size.0 as int)),
            (container@.len() as int) / ((decomp_level_count.0 as int) * (output_lwe_size.0 as int))
                <= output_lwe_size.0 - 1,
        ensures
            r.wf(),
            r.input_key_lwe_dimension == input_key_lwe_dimension,
            r.lwe_ksk.data@ == container@,
            r.lwe_ksk.decomp_base_log == decomp_base_log,
            r.lwe_ksk.decomp_level_count == decomp_level_count,
            r.lwe_ksk.output_lwe_size == output_lwe_size,
            r.lwe_ksk.ciphertext_modulus == ciphertext_modulus,
    {
        let lwe_ksk = LweKeyswitchKey::from_container(
            container,
            decomp_base_log,
            decomp_level_count,
            output_lwe_size,
            ciphertext_modulus,
        );
        LweShrinkingKeyswitchKey { lwe_ksk, input_key_lwe_dimension }
    }

    /// The wrapped plain keyswitch key.
    pub fn as_lwe_keyswitch_key(&self) -> (r: &LweKeyswitchKey)
        ensures
            r == &self.lwe_ksk,
    {
        &self.lwe_ksk
    }

    pub fn decomposition_base_log(&self) -> (r: DecompositionBaseLog)
        ensures
            r == self.lwe_ksk.decomp_base_log,
    {
        self.lwe_ksk.decomposition_base_log()
    }

    pub fn decomposition_level_count(&self) -> (r: DecompositionLevelCount)
        ensures
            r == self.lwe_ksk.decomp_level_count,
    {
        self.lwe_ksk.decomposition_level_count()
    }

    pub fn input_key_lwe_dimension(&self) -> (r: LweDimension)
        ensures
            r == self.input_key_lwe_dimension,
    {
        self.input_key_lwe_dimension
    }

    pub fn output_key_lwe_dimension(&self) -> (r: LweDimension)
        requires
            self.wf(),
        ensures
            r.0 == self.lwe_ksk.output_lwe_size.0 - 1,
    {
        LweDimension(self.lwe_ksk.output_lwe_size.0 - 1)
    }

    pub fn output_lwe_size(&self) -> (r: LweSize)
        ensures
            r == self.lwe_ksk.output_lwe_size,
    {
        self.lwe_ksk.output_lwe_size()
    }

    /// The number of input key coefficients whose randomness the output
    /// key does not share: exactly the entries the stored key encrypts.
    pub fn unshared_randomness_lwe_dimension(&self) -> (r: SharedLweSecretKeyDifferingCoefCount)
        requires
            self.wf(),
        ensures
            r.0 == self.lwe_ksk.input_dimension_spec(),
    {
        let dim = self.lwe_ksk.input_key_lwe_dimension();
        SharedLweSecretKeyDifferingCoefCount(dim.0)
    }

    /// The number of input key coefficients shared with the output key.
    pub fn shared_randomness_lwe_dimension(&self) -> (r: SharedLweSecretKeyCommonCoefCount)
        requires
            self.wf(),
        ensures
            r.0 == self.input_key_lwe_dimension.0 - self.lwe_ksk.input_dimension_spec(),
    {
        let unshared = self.lwe_ksk.input_key_lwe_dimension();
        SharedLweSecretKeyCommonCoefCount(self.input_key_lwe_dimension.0 - unshared.0)
    }

    pub fn input_key_element_encrypted_size(&self) -> (r: usize)
        requires
            self.wf(),
        ensures
            r == self.lwe_ksk.entry_size_spec(),
    {
        self.lwe_ksk.input_key_element_encrypted_size()
    }

    pub fn into_container(self) -> (r: Vec<u64>)
        ensures
            r@ == self.lwe_ksk.data@,
    {
        self.lwe_ksk.into_container()
    }

    pub fn ciphertext_modulus(&self) -> (r: CiphertextModulus)
        ensures
            r == self.lwe_ksk.ciphertext_modulus,
    {
        self.lwe_ksk.ciphertext_modulus()
    }

    /// Allocates a shrinking keyswitch key of the requested shape with
    /// every element set to `fill_with`.
    pub fn new(
        fill_with: u64,
        decomp_base_log: DecompositionBaseLog,
        decomp_level_count: DecompositionLevelCount,
        input_key_lwe_dimension: LweDimension,
        output_key_lwe_dimension: LweDimension,
        shared_randomness_coef_count: SharedLweSecretKeyCommonCoefCount,
        ciphertext_modulus: CiphertextModulus,
    ) -> (r: Self)
        requires
            1 <= decomp_base_log.0 <= 63,
            1 <= decomp_level_count.0 <= 64,
            1 <= output_key_lwe_dimension.0 <= 0x10_0000,
            output_key_lwe_dimension.0 <= input_key_lwe_dimension.0,
            shared_randomness_coef_count.0 <= output_key_lwe_dimension.0,
            // the unshared part is what remains of the input key, and the
            // input key splits into it plus the whole output key
            input_key_lwe_dimension.0 - shared_randomness_coef_count.0 <= 0x10_0000,
            input_key_lwe_dimension.0 == output_key_lwe_dimension.0 + (
            input_key_lwe_dimension.0 - shared_randomness_coef_count.0),
            (input_key_lwe_dimension.0 - shared_randomness_coef_count.0) * ((
            decomp_level_count.0 as int) * (output_key_lwe_dimension.0 + 1)) <= usize::MAX,
        ensures
            r.wf(),
            r.input_key_lwe_dimension == input_key_lwe_dimension,
            r.lwe_ksk.input_dimension_spec() == input_key_lwe_dimension.0
                - shared_randomness_coef_count.0,
            r.lwe_ksk.decomp_base_log == decomp_base_log,
            r.lwe_ksk.decomp_level_count == decomp_level_count,
            r.lwe_ksk.output_lwe_size.0 == output_key_lwe_dimension.0 + 1,
            r.lwe_ksk.ciphertext_modulus == ciphertext_modulus,
            forall|k: int| 0 <= k < r.lwe_ksk.data@.len() ==> r.lwe_ksk.data@[k] == fill_with,
    {
        let unshared = input_key_lwe_dimension.0 - shared_randomness_coef_count.0;
        let output_lwe_size = output_key_lwe_dimension.0 + 1;
        proof {
            lemma_ksk_entry_bounds(decomp_level_count.0 as int, output_lwe_size as int);
            assert(0 <= (unshared as int) * ((decomp_level_count.0 as int) * (
            output_lwe_size as int))) by (nonlinear_arith)
                requires
                    0 <= unshared,
                    2 <= (decomp_level_count.0 as int) * (output_lwe_size as int),
            ;
        }
        let entry = decomp_level_count.0 * output_lwe_size;
        let total = unshared * entry;
        let mut data: Vec<u64> = Vec::new();
        while data.len() < total
            invariant
                data@.len() <= total,
                forall|k: int| 0 <= k < data@.len() ==> data@[k] == fill_with,
            decreases total - data@.len(),
        {
            data.push(fill_with);
        }
        proof {
            vstd::arithmetic::div_mod::lemma_fundamental_div_mod_converse(
                total as int,
                (decomp_level_count.0 as int) * (output_lwe_size as int),
                unshared as int,
                0,
            );
            assert((unshared as int) * ((decomp_level_count.0 as int) * (output_lwe_size as int))
                <= 0x10_0000 * ((decomp_level_count.0 as int) * (output_lwe_size as int)))
                by (nonlinear_arith)
                requires
                    0 <= unshared <= 0x10_0000,
                    2 <= (decomp_level_count.0 as int) * (output_lwe_size as int),
            ;
        }
        let lwe_ksk = LweKeyswitchKey::from_container(
            data,
            decomp_base_log,
            decomp_level_count,
            LweSize(output_lwe_size),
            ciphertext_modulus,
        );
        LweShrinkingKeyswitchKey { lwe_ksk, input_key_lwe_dimension }
    }
}

} // verus!
