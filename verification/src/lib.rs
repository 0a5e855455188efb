//! Ciphertext compaction engine for a torus fully-homomorphic encryption
//! scheme: many independently encrypted scalar ciphertexts are homomorphically
//! repacked into a small number of larger GLWE ciphertexts, stored at reduced
//! precision, and any single slot can later be reconstructed on demand with a
//! programmable bootstrap that restores a nominal noise level.
//!
//! The bundled parameter sets are demonstration-scale: their dimensions
//! are chosen so that the exact (transform-free) arithmetic here runs
//! quickly, and they offer no cryptographic security margin.

pub mod bootstrap;
pub mod client_key;
pub mod codec;
pub mod compressed_glwe;
pub mod compression;
pub mod config;
pub mod container;
pub mod entities;
pub mod fhe_types;
pub mod glwe_packed_list;
pub mod inner_keys;
pub mod keyswitch;
pub mod packed_integers;
pub mod parameters;
pub mod polynomial;
pub mod private_key;
pub mod random;
pub mod seeded_server_keys;
pub mod server_keys;
pub mod shrinking_key;
