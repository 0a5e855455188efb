//! The private side of the compression key material: a packing secret key
//! drawn for the configured shape, kept by the client.

use vstd::prelude::*;

use crate::client_key::{ClientKey, ShortintEngine};
use crate::entities::{allocate_and_generate_new_binary_glwe_secret_key, GlweSecretKey};
use crate::parameters::{CompressionParameters, EncryptionKeyChoice};

verus! {

/// The private packing secret key together with the compression
/// configuration it was drawn for.
pub struct GlweCompressionPrivateKeys {
    pub post_packing_ks_key: GlweSecretKey,
    pub params: CompressionParameters,
}

impl GlweCompressionPrivateKeys {
    pub open spec fn wf(&self) -> bool {
        &&& self.params.wf()
        &&& self.post_packing_ks_key.wf()
        &&& self.post_packing_ks_key.polynomial_size == self.params.packing_ks_polynomial_size
        &&& self.post_packing_ks_key.glwe_dimension_spec()
            == self.params.packing_ks_glwe_dimension.0
    }
}

impl ClientKey {
    /// Draws a fresh private packing secret key of the configured
    /// dimension and polynomial size.  The client key must use the large
    /// encryption key; other configurations are rejected before any key
    /// material is touched.
    pub fn new_compression_private_key(
        &self,
        params: CompressionParameters,
        engine: &mut ShortintEngine,
    ) -> (r: GlweCompressionPrivateKeys)
        requires
            self.wf(),
            params.wf(),
            self.classic_parameters().encryption_key_choice == EncryptionKeyChoice::Big,
        ensures
            r.wf(),
            r.params == params,
            // the packing key is drawn from the engine's stream: its
            // coefficients are the low bits of the next stream words
            r.post_packing_ks_key.data@.len() == params.packing_ks_glwe_dimension.0
                * params.packing_ks_polynomial_size.0,
            forall|k: int|
                0 <= k < r.post_packing_ks_key.data@.len() ==> r.post_packing_ks_key.data@[k] == (
                crate::random::csprng_word(
                    old(engine).source.seed_spec(),
                    old(engine).source.drawn_spec() + k,
                ) & 1),
            final(engine).source.seed_spec() == old(engine).source.seed_spec(),
            final(engine).source.drawn_spec() == old(engine).source.drawn_spec()
                + params.packing_ks_glwe_dimension.0 * params.packing_ks_polynomial_size.0,
    {
        let post_packing_ks_key = allocate_and_generate_new_binary_glwe_secret_key(
            params.packing_ks_glwe_dimension,
            params.packing_ks_polynomial_size,
            &mut engine.source,
        );
        GlweCompressionPrivateKeys { post_packing_ks_key, params }
    }
}

} // verus!
