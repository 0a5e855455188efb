//! The compression and decompression keys: a packing keyswitch key that
//! folds ciphertexts under the big client key into GLWE ciphertexts under
//! the private packing key, and a blind rotation key that bootstraps
//! extracted samples back under the client's GLWE key.

use vstd::prelude::*;

use crate::bootstrap::{
    allocate_and_generate_new_lwe_bootstrap_key, bsk_generated_row, bsk_row,
    ShortintBootstrappingKey,
};
use crate::client_key::{ClientKey, ShortintEngine};
use crate::keyswitch::{
    allocate_and_generate_new_lwe_packing_keyswitch_key, pksk_entry, pksk_message,
    LwePackingKeyswitchKey,
};
use crate::parameters::{
    EncryptionKeyChoice, GlweSize, PolynomialSize, is_power_of_two,
};
use crate::private_key::GlweCompressionPrivateKeys;

verus! {

/// The server-side compression key: the packing keyswitch key, how many
/// ciphertexts to fold per GLWE, and the client polynomial size that
/// fixes the storage precision of compressed groups.
pub struct GlweCompressionKey {
    pub packing_key_switching_key: LwePackingKeyswitchKey,
    pub lwe_per_glwe: usize,
    pub polynomial_size: PolynomialSize,
}

impl GlweCompressionKey {
    pub open spec fn wf(&self) -> bool {
        &&& self.packing_key_switching_key.wf()
        &&& 1 <= self.lwe_per_glwe
        &&& self.lwe_per_glwe <= self.packing_key_switching_key.output_polynomial_size.0
        &&& is_power_of_two(self.polynomial_size.0 as int)
        &&& 2 <= self.polynomial_size.0 <= 0x10_0000
    }
}

/// The server-side decompression key: a blind rotation key from the
/// packing key back to the client's GLWE key.
pub struct GlweDecompressionKey {
    pub blind_rotate_key: ShortintBootstrappingKey,
    pub lwe_per_glwe: usize,
}

impl GlweDecompressionKey {
    pub open spec fn wf(&self) -> bool {
        &&& self.blind_rotate_key.wf()
        &&& 1 <= self.lwe_per_glwe
    }

    pub fn out_glwe_size(&self) -> (r: GlweSize)
        ensures
            r == self.blind_rotate_key.key_spec().glwe_size,
    {
        self.blind_rotate_key.glwe_size()
    }

    pub fn out_polynomial_size(&self) -> (r: PolynomialSize)
        ensures
            r == self.blind_rotate_key.key_spec().polynomial_size,
    {
        self.blind_rotate_key.polynomial_size()
    }
}

impl ClientKey {
    /// Derives the compression and decompression keys from this client
    /// key and the private packing key.  The client key must use the
    /// large encryption key; multi-bit parameter families are not
    /// representable here.
    pub fn new_compression_decompression_keys(
        &self,
        private_compression_key: &GlweCompressionPrivateKeys,
        engine: &mut ShortintEngine,
    ) -> (r: (GlweCompressionKey, GlweDecompressionKey))
        requires
            self.wf(),
            private_compression_key.wf(),
            self.classic_parameters().encryption_key_choice == EncryptionKeyChoice::Big,
        ensures
            r.0.wf(),
            r.1.wf(),
            r.0.lwe_per_glwe == private_compression_key.params.lwe_per_glwe,
            r.1.lwe_per_glwe == private_compression_key.params.lwe_per_glwe,
            r.0.polynomial_size == self.classic_parameters().polynomial_size,
            r.0.packing_key_switching_key.input_lwe_dimension_spec()
                == self.classic_parameters().glwe_dimension.0
                * self.classic_parameters().polynomial_size.0,
            r.0.packing_key_switching_key.output_polynomial_size
                == private_compression_key.params.packing_ks_polynomial_size,
            r.0.packing_key_switching_key.output_glwe_size.0
                == private_compression_key.params.packing_ks_glwe_dimension.0 + 1,
            r.1.blind_rotate_key.key_spec().input_lwe_dimension_spec()
                == private_compression_key.params.packing_ks_glwe_dimension.0
                * private_compression_key.params.packing_ks_polynomial_size.0,
            r.1.blind_rotate_key.key_spec().glwe_size.0
                == self.classic_parameters().glwe_dimension.0 + 1,
            r.1.blind_rotate_key.key_spec().polynomial_size
                == self.classic_parameters().polynomial_size,
            // the derived keys use exactly the configured decompositions
            r.0.packing_key_switching_key.decomp_base_log
                == private_compression_key.params.packing_ks_base_log,
            r.0.packing_key_switching_key.decomp_level_count
                == private_compression_key.params.packing_ks_level,
            r.1.blind_rotate_key.key_spec().decomp_base_log
                == private_compression_key.params.br_base_log,
            r.1.blind_rotate_key.key_spec().decomp_level_count
                == private_compression_key.params.br_level,
            // both keys are drawn deterministically from the engine's
            // stream: each packing keyswitch entry is a fresh GLWE
            // encryption of a scaled bit of the client's large key, and
            // each blind rotation row follows from the packing key, with
            // the configured noise bounds
            final(engine).source.seed_spec() == old(engine).source.seed_spec(),
            forall|e: int|
                0 <= e < r.0.packing_key_switching_key.input_lwe_dimension_spec()
                    * private_compression_key.params.packing_ks_level.0 ==> #[trigger] pksk_entry(
                    r.0.packing_key_switching_key.data@,
                    e,
                    (private_compression_key.post_packing_ks_key.glwe_dimension_spec() + 1)
                        * private_compression_key.post_packing_ks_key.polynomial_size.0,
                ) == crate::entities::encrypted_glwe_data(
                    private_compression_key.post_packing_ks_key.data@,
                    pksk_message(
                        self.glwe_secret_key.data@[e / (
                        private_compression_key.params.packing_ks_level.0 as int)],
                        private_compression_key.params.packing_ks_base_log.0 as int,
                        e % (private_compression_key.params.packing_ks_level.0 as int) + 1,
                        private_compression_key.post_packing_ks_key.polynomial_size.0 as int,
                    ),
                    old(engine).source.seed_spec(),
                    old(engine).source.drawn_spec() + e * ((
                    private_compression_key.post_packing_ks_key.glwe_dimension_spec() + 1)
                        * private_compression_key.post_packing_ks_key.polynomial_size.0),
                    private_compression_key.params.packing_ks_key_noise_distribution.bound_log2
                        as int,
                    private_compression_key.post_packing_ks_key.glwe_dimension_spec(),
                    private_compression_key.post_packing_ks_key.polynomial_size.0 as int,
                ),
            forall|g: int|
                0 <= g < (r.1.blind_rotate_key.key_spec().input_lwe_dimension_spec()
                    * private_compression_key.params.br_level.0) * (
                self.glwe_secret_key.glwe_dimension_spec() + 1) ==> #[trigger] bsk_row(
                    r.1.blind_rotate_key.key_spec().data@,
                    g,
                    (self.glwe_secret_key.glwe_dimension_spec() + 1)
                        * self.glwe_secret_key.polynomial_size.0,
                ) == bsk_generated_row(
                    private_compression_key.post_packing_ks_key.data@,
                    self.glwe_secret_key.data@,
                    private_compression_key.params.br_base_log.0 as int,
                    private_compression_key.params.br_level.0 as int,
                    self.glwe_secret_key.glwe_dimension_spec() + 1,
                    self.glwe_secret_key.polynomial_size.0 as int,
                    old(engine).source.seed_spec(),
                    old(engine).source.drawn_spec()
                        + (r.0.packing_key_switching_key.input_lwe_dimension_spec()
                        * private_compression_key.params.packing_ks_level.0) * ((
                    private_compression_key.post_packing_ks_key.glwe_dimension_spec() + 1)
                        * private_compression_key.post_packing_ks_key.polynomial_size.0),
                    self.classic_parameters().glwe_noise_distribution.bound_log2 as int,
                    g,
                ),
    {
        let params = &private_compression_key.params;
        proof {
            assert((private_compression_key.params.packing_ks_glwe_dimension.0 as int + 1) * (
            private_compression_key.params.packing_ks_polynomial_size.0 as int) <= usize::MAX)
                by (nonlinear_arith)
                requires
                    private_compression_key.params.packing_ks_glwe_dimension.0 + 1 <= 8,
                    1 <= private_compression_key.params.packing_ks_polynomial_size.0 <= 0x10_0000,
            ;
            vstd::arithmetic::div_mod::lemma_fundamental_div_mod(
                private_compression_key.post_packing_ks_key.data@.len() as int,
                private_compression_key.post_packing_ks_key.polynomial_size.0 as int,
            );
            vstd::arithmetic::mul::lemma_mul_is_commutative(
                private_compression_key.post_packing_ks_key.polynomial_size.0 as int,
                private_compression_key.post_packing_ks_key.glwe_dimension_spec(),
            );
        }
        let large_key = self.large_lwe_secret_key();
        let packing_key_switching_key = allocate_and_generate_new_lwe_packing_keyswitch_key(
            &large_key,
            &private_compression_key.post_packing_ks_key,
            params.packing_ks_base_log,
            params.packing_ks_level,
            params.packing_ks_key_noise_distribution,
            self.parameters.ciphertext_modulus(),
            &mut engine.source,
        );
        let glwe_compression_key = GlweCompressionKey {
            packing_key_switching_key,
            lwe_per_glwe: params.lwe_per_glwe,
            polynomial_size: match self.parameters.pbs_params {
                crate::parameters::PBSParameters::PBS(p) => p.polynomial_size,
                crate::parameters::PBSParameters::MultiBitPBS(p) => {
                    proof {
                        assert(false);
                    }
                    p.base.polynomial_size
                },
            },
        };
        let packing_lwe_key = private_compression_key.post_packing_ks_key.as_lwe_secret_key();
        let glwe_noise = self.parameters.glwe_noise_distribution();
        let blind_rotate_key = allocate_and_generate_new_lwe_bootstrap_key(
            &packing_lwe_key,
            &self.glwe_secret_key,
            params.br_base_log,
            params.br_level,
            glwe_noise,
            self.parameters.ciphertext_modulus(),
            &mut engine.source,
        );
        let glwe_decompression_key = GlweDecompressionKey {
            blind_rotate_key: ShortintBootstrappingKey::Classic(blind_rotate_key),
            lwe_per_glwe: params.lwe_per_glwe,
        };
        (glwe_compression_key, glwe_decompression_key)
    }
}

} // verus!
