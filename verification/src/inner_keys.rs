//! The key bundles the integer layer hands to applications: the client's
//! secret material with its optional compression key, and the server-side
//! bundles in plain and seeded form.  The compute keys themselves are out
//! of this engine's scope; what matters here is carrying the compression
//! halves next to them and taking the bundles apart again losslessly.

use vstd::prelude::*;

use crate::client_key::{ClientKey, ServerKey};
use crate::parameters::{CarryModulus, ClassicPBSParameters, MessageModulus, PBSParameters, WopbsParameters};
use crate::private_key::GlweCompressionPrivateKeys;
use crate::seeded_server_keys::{SeededGlweCompressionKey, SeededGlweDecompressionKey};
use crate::server_keys::{GlweCompressionKey, GlweDecompressionKey};

verus! {

/// A public key for compact-list encryption; its internals belong to the
/// encryption path, only its parameters travel with the bundles here.
pub struct CompactPublicKey {
    pub parameters: ClassicPBSParameters,
}

/// A compressed form of the compact public key.
pub struct CompressedCompactPublicKey {
    pub parameters: ClassicPBSParameters,
}

impl CompressedCompactPublicKey {
    /// Expands to the full compact public key.
    pub fn decompress(&self) -> (r: CompactPublicKey)
        ensures
            r.parameters == self.parameters,
    {
        CompactPublicKey { parameters: self.parameters }
    }
}

/// A compressed server evaluation key; only its plaintext-space
/// bookkeeping is carried here.
pub struct CompressedServerKey {
    pub message_modulus: MessageModulus,
    pub carry_modulus: CarryModulus,
}

/// The client's key bundle: the secret key, the optional
/// function-evaluation parameters, and the optional private compression
/// key drawn next to it.
pub struct IntegerClientKey {
    pub key: ClientKey,
    pub wopbs_block_parameters: Option<WopbsParameters>,
    pub compression_key: Option<GlweCompressionPrivateKeys>,
}

impl IntegerClientKey {
    /// Deconstructs the bundle into its constituents.
    pub fn into_raw_parts(self) -> (r: (
        ClientKey,
        Option<WopbsParameters>,
        Option<GlweCompressionPrivateKeys>,
    ))
        ensures
            r.0 == self.key,
            r.1 == self.wopbs_block_parameters,
            r.2 == self.compression_key,
    {
        let IntegerClientKey { key, wopbs_block_parameters, compression_key: compression } = self;
        (key, wopbs_block_parameters, compression)
    }

    /// Reassembles a bundle from its constituents.  Function-evaluation
    /// parameters must agree with the key's plaintext space.
    pub fn from_raw_parts(
        key: ClientKey,
        wopbs_block_parameters: Option<WopbsParameters>,
        compression_key: Option<GlweCompressionPrivateKeys>,
    ) -> (r: Self)
        requires
            match wopbs_block_parameters {
                Some(wopbs) => {
                    &&& wopbs.message_modulus == key.classic_parameters().message_modulus
                    &&& wopbs.carry_modulus == key.classic_parameters().carry_modulus
                },
                None => true,
            },
        ensures
            r.key == key,
            r.wopbs_block_parameters == wopbs_block_parameters,
            r.compression_key == compression_key,
    {
        IntegerClientKey { key, wopbs_block_parameters, compression_key }
    }
}

/// The server's key bundle: the evaluation key and, when compression is
/// enabled, the compression and decompression keys.
pub struct IntegerServerKey {
    pub key: ServerKey,
    pub wopbs_key: Option<WopbsParameters>,
    pub compression_key: Option<GlweCompressionKey>,
    pub decompression_key: Option<GlweDecompressionKey>,
}

/// The server's key bundle in compressed form: the evaluation key
/// compressed, and the compression halves in seeded form.
pub struct IntegerCompressedServerKey {
    pub key: CompressedServerKey,
    pub compression_keys: Option<(SeededGlweCompressionKey, SeededGlweDecompressionKey)>,
}

impl IntegerCompressedServerKey {
    pub fn into_raw_parts(self) -> (r: (
        CompressedServerKey,
        Option<(SeededGlweCompressionKey, SeededGlweDecompressionKey)>,
    ))
        ensures
            r.0 == self.key,
            r.1 == self.compression_keys,
    {
        (self.key, self.compression_keys)
    }

    pub fn from_raw_parts(
        key: CompressedServerKey,
        compression_keys: Option<(SeededGlweCompressionKey, SeededGlweDecompressionKey)>,
    ) -> (r: Self)
        ensures
            r.key == key,
            r.compression_keys == compression_keys,
    {
        IntegerCompressedServerKey { key, compression_keys }
    }

    /// Expands the whole bundle: both seeded compression halves are
    /// deterministically decompressed.
    pub fn decompress(&self) -> (r: IntegerServerKey)
        requires
            match self.compression_keys {
                Some(keys) => keys.0.wf() && keys.1.wf(),
                None => true,
            },
        ensures
            r.key.message_modulus == self.key.message_modulus,
            r.key.carry_modulus == self.key.carry_modulus,
            r.wopbs_key is None,
            r.compression_key is Some <==> self.compression_keys is Some,
            r.decompression_key is Some <==> self.compression_keys is Some,
            match self.compression_keys {
                Some(keys) => {
                    &&& r.compression_key->Some_0.wf()
                    &&& r.decompression_key->Some_0.wf()
                    &&& r.compression_key->Some_0.lwe_per_glwe == keys.0.lwe_per_glwe
                    &&& r.decompression_key->Some_0.lwe_per_glwe == keys.1.lwe_per_glwe
                    &&& r.compression_key->Some_0.polynomial_size == keys.0.polynomial_size
                },
                None => true,
            },
    {
        let (compression_key, decompression_key) = match &self.compression_keys {
            Some((comp, decomp)) => (Some(comp.decompress()), Some(decomp.decompress())),
            None => (None, None),
        };
        IntegerServerKey {
            key: ServerKey {
                message_modulus: self.key.message_modulus,
                carry_modulus: self.key.carry_modulus,
            },
            wopbs_key: None,
            compression_key,
            decompression_key,
        }
    }
}

/// The application-facing compact public key bundle.
pub struct IntegerCompactPublicKey {
    pub key: CompactPublicKey,
}

impl IntegerCompactPublicKey {
    pub fn into_raw_parts(self) -> (r: CompactPublicKey)
        ensures
            r == self.key,
    {
        self.key
    }

    pub fn from_raw_parts(key: CompactPublicKey) -> (r: Self)
        ensures
            r.key == key,
    {
        IntegerCompactPublicKey { key }
    }
}

/// The application-facing compressed compact public key bundle.
pub struct IntegerCompressedCompactPublicKey {
    pub key: CompressedCompactPublicKey,
}

impl IntegerCompressedCompactPublicKey {
    /// Deconstructs the bundle.
    pub fn into_raw_parts(self) -> (r: CompressedCompactPublicKey)
        ensures
            r == self.key,
    {
        self.key
    }

    /// Reassembles the bundle.
    pub fn from_raw_parts(key: CompressedCompactPublicKey) -> (r: Self)
        ensures
            r.key == key,
    {
        IntegerCompressedCompactPublicKey { key }
    }

    pub fn decompress(&self) -> (r: IntegerCompactPublicKey)
        ensures
            r.key.parameters == self.key.parameters,
    {
        IntegerCompactPublicKey { key: self.key.decompress() }
    }
}

} // verus!
