//! Seeded forms of the compression and decompression keys: only the body
//! polynomials are stored, the uniform masks are regenerated from a
//! recorded seed, so expansion is bit-for-bit reproducible.

use vstd::prelude::*;

use crate::bootstrap::{bsk_row_message, LweBootstrapKey, ShortintBootstrappingKey};
use crate::client_key::{ClientKey, ShortintEngine};
use crate::entities::{fresh_mask, glwe_body_fold, glwe_body_from_mask, random_mask_vec};
use crate::keyswitch::{pksk_message, LwePackingKeyswitchKey};
use crate::parameters::{
    CiphertextModulus, DecompositionBaseLog, DecompositionLevelCount, EncryptionKeyChoice,
    GlweSize, PolynomialSize,
};
use crate::private_key::GlweCompressionPrivateKeys;
use crate::random::{csprng_word, noise_from_word, RandomSource};
use crate::server_keys::{GlweCompressionKey, GlweDecompressionKey};

verus! {

/// Body word `w` of a seeded packing keyswitch key: coefficient `w % n`
/// of entry `w / n`, folded from the mask stream that the recorded seed
/// keys and from the engine's noise words.
pub open spec fn seeded_pksk_body_word(
    in_key: Seq<u64>,
    out_key: Seq<u64>,
    base_log: int,
    level: int,
    dim: int,
    n: int,
    mask_seed: u128,
    noise_seed: u128,
    noise_first: int,
    bound_log2: int,
    w: int,
) -> u64 {
    let e = w / n;
    let t = w % n;
    glwe_body_fold(
        fresh_mask(mask_seed, e * (dim * n), dim * n),
        out_key,
        n,
        dim,
        t,
        pksk_message(in_key[e / level], base_log, e % level + 1, n)[t].wrapping_add(
            noise_from_word(csprng_word(noise_seed, noise_first + w), bound_log2),
        ),
    )
}

/// Body word `w` of a seeded bootstrap key: coefficient `w % n` of row
/// `w / n`, folded the same way from the recorded seed's mask stream and
/// the engine's noise words.
pub open spec fn seeded_bsk_body_word(
    in_key: Seq<u64>,
    out_key: Seq<u64>,
    base_log: int,
    level: int,
    glwe_size: int,
    n: int,
    mask_seed: u128,
    noise_seed: u128,
    noise_first: int,
    bound_log2: int,
    w: int,
) -> u64 {
    let e = w / n;
    let t = w % n;
    glwe_body_fold(
        fresh_mask(mask_seed, e * ((glwe_size - 1) * n), (glwe_size - 1) * n),
        out_key,
        n,
        glwe_size - 1,
        t,
        bsk_row_message(
            in_key[e / (level * glwe_size)],
            out_key,
            base_log,
            (e / glwe_size) % level + 1,
            e % glwe_size,
            glwe_size,
            n,
        )[t].wrapping_add(noise_from_word(csprng_word(noise_seed, noise_first + w), bound_log2)),
    )
}

/// A packing keyswitch key in seeded form: the stored words are only the
/// body polynomials of its GLWE entries, one polynomial per input key
/// element and level.
pub struct SeededLwePackingKeyswitchKey {
    pub bodies: Vec<u64>,
    pub compression_seed: u128,
    pub decomp_base_log: DecompositionBaseLog,
    pub decomp_level_count: DecompositionLevelCount,
    pub output_glwe_size: GlweSize,
    pub output_polynomial_size: PolynomialSize,
    pub ciphertext_modulus: CiphertextModulus,
}

impl SeededLwePackingKeyswitchKey {
    /// Stored words per input key element: `level` body polynomials.
    pub open spec fn entry_size_spec(&self) -> int {
        (self.decomp_level_count.0 as int) * (self.output_polynomial_size.0 as int)
    }

    pub open spec fn input_lwe_dimension_spec(&self) -> int {
        (self.bodies@.len() as int) / self.entry_size_spec()
    }

    pub open spec fn wf(&self) -> bool {
        &&& 1 <= self.decomp_base_log.0 <= 63
        &&& 1 <= self.decomp_level_count.0 <= 16
        &&& (self.decomp_base_log.0 as int) * (self.decomp_level_count.0 as int) <= 64
        &&& self.output_glwe_size.0 >= 2
        &&& self.output_glwe_size.0 <= 0x20
        &&& 1 <= self.output_polynomial_size.0 <= 0x10_0000
        &&& self.bodies@.len() == self.input_lwe_dimension_spec() * self.entry_size_spec()
        &&& self.input_lwe_dimension_spec() <= 0x10_0000
    }
}

/// A bootstrap key in seeded form: one stored body polynomial per GGSW
/// row, masks regenerated from the seed.
pub struct SeededLweBootstrapKey {
    pub bodies: Vec<u64>,
    pub compression_seed: u128,
    pub glwe_size: GlweSize,
    pub polynomial_size: PolynomialSize,
    pub decomp_base_log: DecompositionBaseLog,
    pub decomp_level_count: DecompositionLevelCount,
    pub ciphertext_modulus: CiphertextModulus,
}

impl SeededLweBootstrapKey {
    /// Stored words per input key element: one body polynomial per level
    /// and row.
    pub open spec fn entry_size_spec(&self) -> int {
        (self.decomp_level_count.0 as int) * (self.glwe_size.0 as int)
            * (self.polynomial_size.0 as int)
    }

    pub open spec fn input_lwe_dimension_spec(&self) -> int {
        (self.bodies@.len() as int) / self.entry_size_spec()
    }

    pub open spec fn wf(&self) -> bool {
        &&& 1 <= self.decomp_base_log.0 <= 63
        &&& 1 <= self.decomp_level_count.0 <= 8
        &&& (self.decomp_base_log.0 as int) * (self.decomp_level_count.0 as int) <= 64
        &&& 2 <= self.glwe_size.0 <= 8
        &&& 1 <= self.polynomial_size.0 <= 0x10_0000
        &&& self.bodies@.len() == self.input_lwe_dimension_spec() * self.entry_size_spec()
        &&& self.input_lwe_dimension_spec() <= 0x10_0000
    }
}

/// Word `i` of the deterministic expansion of a seeded key layout: rows
/// of `mask_len` stream words followed by `n` stored body words.  The
/// masks are the words of the stream keyed by `seed`, in order; the body
/// words are the stored ones, at exactly the body positions.
pub open spec fn expanded_key_word(
    bodies: Seq<u64>,
    seed: u128,
    mask_len: int,
    n: int,
    i: int,
) -> u64 {
    let glwe_len = mask_len + n;
    let row = i / glwe_len;
    let c = i % glwe_len;
    if c < mask_len {
        crate::random::csprng_word(seed, row * mask_len + c)
    } else {
        bodies[row * n + (c - mask_len)]
    }
}

/// Expands a seeded layout of `rows` GLWE rows: every row gets `mask_len`
/// fresh stream words and its `n` stored body words, so the result is a
/// function of the seed and the bodies alone.
fn expand_seeded_rows(
    bodies: &Vec<u64>,
    seed: u128,
    rows: usize,
    mask_len: usize,
    n: usize,
) -> (r: Vec<u64>)
    requires
        1 <= n <= 0x10_0000,
        mask_len <= 0x200_0000,
        (rows as int) * (n as int) == bodies@.len(),
        rows <= 0x1000_0000,
    ensures
        r@.len() == (rows as int) * ((mask_len + n) as int),
        forall|i: int|
            0 <= i < r@.len() ==> r@[i] == expanded_key_word(
                bodies@,
                seed,
                mask_len as int,
                n as int,
                i,
            ),
{
    let glwe_len = mask_len + n;
    let mut mask_source = RandomSource::new(seed);
    let mut data: Vec<u64> = Vec::new();
    let mut row: usize = 0;
    while row < rows
        invariant
            1 <= n <= 0x10_0000,
            mask_len <= 0x200_0000,
            glwe_len == mask_len + n,
            1 <= glwe_len,
            (rows as int) * (n as int) == bodies@.len(),
            bodies@.len() == bodies.len(),
            rows <= 0x1000_0000,
            row <= rows,
            mask_source.seed_spec() == seed,
            mask_source.drawn_spec() == (row as int) * (mask_len as int),
            data@.len() == (row as int) * (glwe_len as int),
            forall|i: int|
                0 <= i < data@.len() ==> data@[i] == expanded_key_word(
                    bodies@,
                    seed,
                    mask_len as int,
                    n as int,
                    i,
                ),
        decreases rows - row,
    {
        proof {
            lemma_expand_row_step(row as int, rows as int, mask_len as int, n as int);
        }
        let ghost base = data@.len() as int;
        let mut mask = random_mask_vec(mask_len, &mut mask_source);
        data.append(&mut mask);
        let mut t: usize = 0;
        while t < n
            invariant
                t <= n,
                row < rows,
                1 <= n,
                glwe_len == mask_len + n,
                (rows as int) * (n as int) == bodies@.len(),
                bodies@.len() == bodies.len(),
                (row as int) * (n as int) + n <= bodies@.len(),
                0 <= (row as int) * (n as int),
                data@.len() == base + mask_len + t,
                base == (row as int) * (glwe_len as int),
                0 <= base,
                mask_source.seed_spec() == seed,
                mask_source.drawn_spec() == (row as int) * (mask_len as int) + mask_len,
                forall|i: int|
                    0 <= i < base ==> data@[i] == expanded_key_word(
                        bodies@,
                        seed,
                        mask_len as int,
                        n as int,
                        i,
                    ),
                forall|k: int|
                    0 <= k < mask_len ==> #[trigger] data@[base + k] == crate::random::csprng_word(
                        seed,
                        (row as int) * (mask_len as int) + k,
                    ),
                forall|t2: int|
                    0 <= t2 < t ==> #[trigger] data@[base + mask_len + t2] == bodies@[(
                    row as int) * (n as int) + t2],
            decreases n - t,
        {
            data.push(bodies[row * n + t]);
            t += 1;
        }
        proof {
            assert forall|i: int| 0 <= i < data@.len() implies data@[i] == expanded_key_word(
                bodies@,
                seed,
                mask_len as int,
                n as int,
                i,
            ) by {
                if i >= base {
                    let c = i - base;
                    vstd::arithmetic::div_mod::lemma_fundamental_div_mod_converse(
                        i,
                        glwe_len as int,
                        row as int,
                        c,
                    );
                    if c < mask_len {
                        assert(data@[base + c] == crate::random::csprng_word(
                            seed,
                            (row as int) * (mask_len as int) + c,
                        ));
                    } else {
                        assert(data@[base + mask_len + (c - mask_len)] == bodies@[(row as int) * (
                        n as int) + (c - mask_len)]);
                    }
                }
            }
        }
        row += 1;
    }
    data
}

/// Index bookkeeping for one expanded row.
proof fn lemma_expand_row_step(row: int, rows: int, mask_len: int, n: int)
    by (nonlinear_arith)
    requires
        0 <= row < rows,
        0 <= mask_len <= 0x200_0000,
        1 <= n <= 0x10_0000,
        rows <= 0x1000_0000,
    ensures
        (row + 1) * (mask_len + n) == row * (mask_len + n) + mask_len + n,
        0 <= row * (mask_len + n),
        (row + 1) * (mask_len + n) <= rows * (mask_len + n),
        rows * (mask_len + n) <= 0x1000_0000 * 0x300_0000,
        (row + 1) * n <= rows * n,
        (row + 1) * n == row * n + n,
        0 <= row * n,
        (row + 1) * mask_len == row * mask_len + mask_len,
        0 <= row * mask_len,
{
}

/// The compression key in seeded form.
pub struct SeededGlweCompressionKey {
    pub packing_key_switching_key: SeededLwePackingKeyswitchKey,
    pub lwe_per_glwe: usize,
    pub polynomial_size: PolynomialSize,
}

impl SeededGlweCompressionKey {
    pub open spec fn wf(&self) -> bool {
        &&& self.packing_key_switching_key.wf()
        &&& 1 <= self.lwe_per_glwe
        &&& self.lwe_per_glwe <= self.packing_key_switching_key.output_polynomial_size.0
        &&& crate::parameters::is_power_of_two(self.polynomial_size.0 as int)
        &&& 2 <= self.polynomial_size.0 <= 0x10_0000
    }

    /// Expands the seeded key to the full compression key: the masks are
    /// regenerated from the recorded seed, the stored bodies are spliced
    /// back in behind them.
    pub fn decompress(&self) -> (r: GlweCompressionKey)
        requires
            self.wf(),
        ensures
            r.wf(),
            r.lwe_per_glwe == self.lwe_per_glwe,
            r.polynomial_size == self.polynomial_size,
            r.packing_key_switching_key.output_polynomial_size
                == self.packing_key_switching_key.output_polynomial_size,
            r.packing_key_switching_key.output_glwe_size
                == self.packing_key_switching_key.output_glwe_size,
            r.packing_key_switching_key.input_lwe_dimension_spec()
                == self.packing_key_switching_key.input_lwe_dimension_spec(),
            r.packing_key_switching_key.decomp_base_log
                == self.packing_key_switching_key.decomp_base_log,
            r.packing_key_switching_key.decomp_level_count
                == self.packing_key_switching_key.decomp_level_count,
            r.packing_key_switching_key.ciphertext_modulus
                == self.packing_key_switching_key.ciphertext_modulus,
            // expansion is a function of the seed and the stored bodies
            // alone: mask words come from the recorded seed's stream and
            // the stored body words land at the body positions
            forall|i: int|
                0 <= i < r.packing_key_switching_key.data@.len()
                    ==> r.packing_key_switching_key.data@[i] == expanded_key_word(
                    self.packing_key_switching_key.bodies@,
                    self.packing_key_switching_key.compression_seed,
                    ((self.packing_key_switching_key.output_glwe_size.0 - 1) as int) * (
                    self.packing_key_switching_key.output_polynomial_size.0 as int),
                    self.packing_key_switching_key.output_polynomial_size.0 as int,
                    i,
                ),
    {
        let seeded = &self.packing_key_switching_key;
        let n = seeded.output_polynomial_size.0;
        let glwe_size = seeded.output_glwe_size.0;
        let level = seeded.decomp_level_count.0;
        let ghost entry = (level as int) * (glwe_size as int) * (n as int);
        let ghost input_dim = seeded.input_lwe_dimension_spec();
        proof {
            lemma_seeded_sizes(level as int, glwe_size as int, n as int);
            vstd::arithmetic::div_mod::lemma_fundamental_div_mod_converse(
                seeded.bodies@.len() as int,
                seeded.entry_size_spec(),
                seeded.input_lwe_dimension_spec(),
                0,
            );
            assert(input_dim * (level as int) <= 0x100_0000 && 0 <= input_dim * (level as int))
                by (nonlinear_arith)
                requires
                    0 <= input_dim <= 0x10_0000,
                    1 <= level <= 16,
            ;
        }
        let mask_len = (glwe_size - 1) * n;
        let rows = seeded.bodies.len() / (level * n) * level;
        proof {
            assert((input_dim * (level as int)) * (n as int) == input_dim * ((level as int) * (
            n as int)) && (input_dim * (level as int)) * ((glwe_size as int) * (n as int))
                == input_dim * entry) by (nonlinear_arith)
                requires
                    entry == (level as int) * (glwe_size as int) * (n as int),
            ;
        }
        let data = expand_seeded_rows(
            &seeded.bodies,
            seeded.compression_seed,
            rows,
            mask_len,
            n,
        );
        proof {
            assert((rows as int) * ((glwe_size as int) * (n as int)) == input_dim * entry)
                by (nonlinear_arith)
                requires
                    rows == input_dim * (level as int),
                    entry == (level as int) * (glwe_size as int) * (n as int),
            ;
            vstd::arithmetic::div_mod::lemma_fundamental_div_mod_converse(
                data@.len() as int,
                entry,
                input_dim,
                0,
            );
        }
        GlweCompressionKey {
            packing_key_switching_key: LwePackingKeyswitchKey {
                data,
                decomp_base_log: seeded.decomp_base_log,
                decomp_level_count: seeded.decomp_level_count,
                output_glwe_size: seeded.output_glwe_size,
                output_polynomial_size: seeded.output_polynomial_size,
                ciphertext_modulus: seeded.ciphertext_modulus,
            },
            lwe_per_glwe: self.lwe_per_glwe,
            polynomial_size: self.polynomial_size,
        }
    }
}

/// The decompression key in seeded form.
pub struct SeededGlweDecompressionKey {
    pub blind_rotate_key: SeededLweBootstrapKey,
    pub lwe_per_glwe: usize,
}

impl SeededGlweDecompressionKey {
    pub open spec fn wf(&self) -> bool {
        &&& self.blind_rotate_key.wf()
        &&& 1 <= self.lwe_per_glwe
    }

    /// Expands the seeded key to the full decompression key, regenerating
    /// the GGSW masks from the recorded seed.
    pub fn decompress(&self) -> (r: GlweDecompressionKey)
        requires
            self.wf(),
        ensures
            r.wf(),
            r.lwe_per_glwe == self.lwe_per_glwe,
            r.blind_rotate_key.key_spec().glwe_size == self.blind_rotate_key.glwe_size,
            r.blind_rotate_key.key_spec().polynomial_size
                == self.blind_rotate_key.polynomial_size,
            r.blind_rotate_key.key_spec().input_lwe_dimension_spec()
                == self.blind_rotate_key.input_lwe_dimension_spec(),
            r.blind_rotate_key.key_spec().decomp_base_log
                == self.blind_rotate_key.decomp_base_log,
            r.blind_rotate_key.key_spec().decomp_level_count
                == self.blind_rotate_key.decomp_level_count,
            // expansion is a function of the seed and the stored bodies
            // alone, row by GGSW row
            forall|i: int|
                0 <= i < r.blind_rotate_key.key_spec().data@.len()
                    ==> r.blind_rotate_key.key_spec().data@[i] == expanded_key_word(
                    self.blind_rotate_key.bodies@,
                    self.blind_rotate_key.compression_seed,
                    ((self.blind_rotate_key.glwe_size.0 - 1) as int) * (
                    self.blind_rotate_key.polynomial_size.0 as int),
                    self.blind_rotate_key.polynomial_size.0 as int,
                    i,
                ),
    {
        let seeded = &self.blind_rotate_key;
        let n = seeded.polynomial_size.0;
        let glwe_size = seeded.glwe_size.0;
        let level = seeded.decomp_level_count.0;
        let ghost ggsw = (level as int) * (glwe_size as int) * (glwe_size as int) * (n as int);
        let ghost input_dim = seeded.input_lwe_dimension_spec();
        proof {
            lemma_seeded_sizes(level as int, glwe_size as int, n as int);
            vstd::arithmetic::div_mod::lemma_fundamental_div_mod_converse(
                seeded.bodies@.len() as int,
                seeded.entry_size_spec(),
                seeded.input_lwe_dimension_spec(),
                0,
            );
            assert(input_dim * ((level as int) * (glwe_size as int)) <= 0x800_0000 && 0
                <= input_dim * ((level as int) * (glwe_size as int)) && 1 <= (level as int) * (
            glwe_size as int) <= 0x80) by (nonlinear_arith)
                requires
                    0 <= input_dim <= 0x10_0000,
                    1 <= level <= 8,
                    2 <= glwe_size <= 8,
            ;
        }
        let mask_len = (glwe_size - 1) * n;
        let rows = seeded.bodies.len() / (level * glwe_size * n) * (level * glwe_size);
        proof {
            assert((input_dim * ((level as int) * (glwe_size as int))) * (n as int) == input_dim
                * ((level as int) * (glwe_size as int) * (n as int)) && (input_dim * ((
            level as int) * (glwe_size as int))) * ((glwe_size as int) * (n as int)) == input_dim
                * ggsw && (level as int) * (glwe_size as int) * (n as int) == seeded.entry_size_spec()
                ) by (nonlinear_arith)
                requires
                    ggsw == (level as int) * (glwe_size as int) * (glwe_size as int) * (n as int),
                    seeded.entry_size_spec() == (level as int) * (glwe_size as int) * (n as int),
            ;
        }
        let data = expand_seeded_rows(
            &seeded.bodies,
            seeded.compression_seed,
            rows,
            mask_len,
            n,
        );
        proof {
            assert((rows as int) * ((glwe_size as int) * (n as int)) == input_dim * ggsw
                && ggsw >= 1) by (nonlinear_arith)
                requires
                    rows == input_dim * ((level as int) * (glwe_size as int)),
                    ggsw == (level as int) * (glwe_size as int) * (glwe_size as int) * (n as int),
                    1 <= level,
                    2 <= glwe_size,
                    1 <= n,
            ;
            vstd::arithmetic::div_mod::lemma_fundamental_div_mod_converse(
                data@.len() as int,
                ggsw,
                input_dim,
                0,
            );
        }
        GlweDecompressionKey {
            blind_rotate_key: ShortintBootstrappingKey::Classic(
                LweBootstrapKey {
                    data,
                    glwe_size: seeded.glwe_size,
                    polynomial_size: seeded.polynomial_size,
                    decomp_base_log: seeded.decomp_base_log,
                    decomp_level_count: seeded.decomp_level_count,
                    ciphertext_modulus: seeded.ciphertext_modulus,
                },
            ),
            lwe_per_glwe: self.lwe_per_glwe,
        }
    }
}

impl ClientKey {
    /// Derives the compression and decompression keys in seeded form: the
    /// stored material is the bodies alone, with one seed per key from
    /// which `decompress` deterministically regenerates the masks.
    pub fn new_seeded_compression_decompression_keys(
        &self,
        private_compression_key: &GlweCompressionPrivateKeys,
        engine: &mut ShortintEngine,
    ) -> (r: (SeededGlweCompressionKey, SeededGlweDecompressionKey))
        requires
            self.wf(),
            private_compression_key.wf(),
            self.classic_parameters().encryption_key_choice == EncryptionKeyChoice::Big,
        ensures
            r.0.wf(),
            r.1.wf(),
            r.0.lwe_per_glwe == private_compression_key.params.lwe_per_glwe,
            r.1.lwe_per_glwe == private_compression_key.params.lwe_per_glwe,
            r.0.polynomial_size == self.classic_parameters().polynomial_size,
            r.0.packing_key_switching_key.decomp_base_log
                == private_compression_key.params.packing_ks_base_log,
            r.0.packing_key_switching_key.decomp_level_count
                == private_compression_key.params.packing_ks_level,
            r.0.packing_key_switching_key.output_glwe_size.0
                == private_compression_key.params.packing_ks_glwe_dimension.0 + 1,
            r.0.packing_key_switching_key.output_polynomial_size
                == private_compression_key.params.packing_ks_polynomial_size,
            r.0.packing_key_switching_key.input_lwe_dimension_spec()
                == self.classic_parameters().glwe_dimension.0
                * self.classic_parameters().polynomial_size.0,
            r.1.blind_rotate_key.decomp_base_log == private_compression_key.params.br_base_log,
            r.1.blind_rotate_key.decomp_level_count == private_compression_key.params.br_level,
            r.1.blind_rotate_key.glwe_size.0 == self.classic_parameters().glwe_dimension.0 + 1,
            r.1.blind_rotate_key.polynomial_size == self.classic_parameters().polynomial_size,
            r.1.blind_rotate_key.input_lwe_dimension_spec()
                == private_compression_key.params.packing_ks_glwe_dimension.0
                * private_compression_key.params.packing_ks_polynomial_size.0,
            // both halves are drawn deterministically: each stored body
            // word is a function of the two keys, the recorded seeds and
            // the engine's stream, with the configured noise bounds
            final(engine).source.seed_spec() == old(engine).source.seed_spec(),
            r.0.packing_key_switching_key.compression_seed == ((csprng_word(
                old(engine).source.seed_spec(),
                old(engine).source.drawn_spec(),
            ) as u128) << 64) | (csprng_word(
                old(engine).source.seed_spec(),
                old(engine).source.drawn_spec() + 1,
            ) as u128),
            forall|w: int|
                0 <= w < r.0.packing_key_switching_key.bodies@.len()
                    ==> #[trigger] r.0.packing_key_switching_key.bodies@[w]
                    == seeded_pksk_body_word(
                    self.glwe_secret_key.data@,
                    private_compression_key.post_packing_ks_key.data@,
                    private_compression_key.params.packing_ks_base_log.0 as int,
                    private_compression_key.params.packing_ks_level.0 as int,
                    private_compression_key.post_packing_ks_key.glwe_dimension_spec(),
                    private_compression_key.post_packing_ks_key.polynomial_size.0 as int,
                    r.0.packing_key_switching_key.compression_seed,
                    old(engine).source.seed_spec(),
                    old(engine).source.drawn_spec() + 2,
                    private_compression_key.params.packing_ks_key_noise_distribution.bound_log2
                        as int,
                    w,
                ),
            r.1.blind_rotate_key.compression_seed == ((csprng_word(
                old(engine).source.seed_spec(),
                old(engine).source.drawn_spec() + 2 + ((self.classic_parameters().glwe_dimension.0
                    * self.classic_parameters().polynomial_size.0) * (
                private_compression_key.params.packing_ks_level.0 as int)) * (
                private_compression_key.params.packing_ks_polynomial_size.0 as int),
            ) as u128) << 64) | (csprng_word(
                old(engine).source.seed_spec(),
                old(engine).source.drawn_spec() + 3 + ((self.classic_parameters().glwe_dimension.0
                    * self.classic_parameters().polynomial_size.0) * (
                private_compression_key.params.packing_ks_level.0 as int)) * (
                private_compression_key.params.packing_ks_polynomial_size.0 as int),
            ) as u128),
            forall|w: int|
                0 <= w < r.1.blind_rotate_key.bodies@.len()
                    ==> #[trigger] r.1.blind_rotate_key.bodies@[w] == seeded_bsk_body_word(
                    private_compression_key.post_packing_ks_key.data@,
                    self.glwe_secret_key.data@,
                    private_compression_key.params.br_base_log.0 as int,
                    private_compression_key.params.br_level.0 as int,
                    self.glwe_secret_key.glwe_dimension_spec() + 1,
                    self.glwe_secret_key.polynomial_size.0 as int,
                    r.1.blind_rotate_key.compression_seed,
                    old(engine).source.seed_spec(),
                    old(engine).source.drawn_spec() + 4 + ((
                    self.classic_parameters().glwe_dimension.0
                        * self.classic_parameters().polynomial_size.0) * (
                    private_compression_key.params.packing_ks_level.0 as int)) * (
                    private_compression_key.params.packing_ks_polynomial_size.0 as int),
                    self.classic_parameters().glwe_noise_distribution.bound_log2 as int,
                    w,
                ),
    {
        let params = &private_compression_key.params;
        let output_sk = &private_compression_key.post_packing_ks_key;
        let n = output_sk.polynomial_size.0;
        let glwe_size = output_sk.glwe_dimension().0 + 1;
        let level = params.packing_ks_level.0;
        let base_log = params.packing_ks_base_log.0;
        let large_key = self.large_lwe_secret_key();
        let input_dim = large_key.data.len();
        let ghost seed0 = old(engine).source.seed_spec();
        let ghost drawn0 = old(engine).source.drawn_spec();
        let seed_hi = engine.source.random_u64();
        let seed_lo = engine.source.random_u64();
        let pksk_seed: u128 = ((seed_hi as u128) << 64) | (seed_lo as u128);
        let mut mask_source = RandomSource::new(pksk_seed);
        let ghost dim = output_sk.glwe_dimension_spec();
        proof {
            lemma_seeded_sizes(level as int, glwe_size as int, n as int);
            assert((input_dim as int) * (level as int) <= 0x100_0000 && 0 <= (input_dim as int)
                * (level as int)) by (nonlinear_arith)
                requires
                    0 <= input_dim <= 0x10_0000,
                    1 <= level <= 16,
            ;
        }
        let entries = input_dim * level;
        let mut bodies: Vec<u64> = Vec::new();
        let mut e: usize = 0;
        while e < entries
            invariant
                self.wf(),
                private_compression_key.wf(),
                output_sk == &private_compression_key.post_packing_ks_key,
                n == output_sk.polynomial_size.0,
                1 <= n <= 0x10_0000,
                glwe_size == output_sk.glwe_dimension_spec() + 1,
                2 <= glwe_size <= 0x20,
                level == params.packing_ks_level.0,
                base_log == params.packing_ks_base_log.0,
                params == &private_compression_key.params,
                large_key.wf(),
                input_dim == large_key.data.len(),
                input_dim <= 0x10_0000,
                entries == (input_dim as int) * (level as int),
                entries <= 0x100_0000,
                e <= entries,
                bodies@.len() == e * n,
                mask_len_ok(glwe_size as int, n as int),
                dim == output_sk.glwe_dimension_spec(),
                glwe_size == dim + 1,
                large_key.data@ == self.glwe_secret_key.data@,
                engine.source.seed_spec() == seed0,
                engine.source.drawn_spec() == drawn0 + 2 + e as int * (n as int),
                mask_source.seed_spec() == pksk_seed,
                mask_source.drawn_spec() == e as int * ((glwe_size as int - 1) * (n as int)),
                (base_log as int) * (level as int) <= 64,
                1 <= base_log,
                forall|w: int|
                    0 <= w < e as int * (n as int) ==> #[trigger] bodies@[w]
                        == seeded_pksk_body_word(
                        self.glwe_secret_key.data@,
                        private_compression_key.post_packing_ks_key.data@,
                        base_log as int,
                        level as int,
                        glwe_size as int - 1,
                        n as int,
                        pksk_seed,
                        seed0,
                        drawn0 + 2,
                        params.packing_ks_key_noise_distribution.bound_log2 as int,
                        w,
                    ),
            decreases entries - e,
        {
            proof {
                vstd::arithmetic::div_mod::lemma_fundamental_div_mod(e as int, level as int);
                vstd::arithmetic::div_mod::lemma_mod_bound(e as int, level as int);
                vstd::arithmetic::mul::lemma_mul_is_commutative(level as int, input_dim as int);
                vstd::arithmetic::div_mod::lemma_multiply_divide_lt(
                    e as int,
                    level as int,
                    input_dim as int,
                );
                vstd::arithmetic::div_mod::lemma_div_is_ordered(0, e as int, level as int);
                assert(1 <= (base_log as int) * ((e as int % (level as int)) + 1) <= 64)
                    by (nonlinear_arith)
                    requires
                        1 <= base_log,
                        (base_log as int) * (level as int) <= 64,
                        0 <= e as int % (level as int) < level,
                ;
            }
            let i = e / level;
            let j = e % level + 1;
            let shift = 64 - base_log * j;
            let s_i = large_key.data[i];
            let mut message: Vec<u64> = crate::bootstrap::zero_vec(n);
            if shift < 64 {
                message[0] = s_i << (shift as u64);
            }
            proof {
                lemma_seeded_sizes(level as int, glwe_size as int, n as int);
                assert(message@ =~= pksk_message(s_i, base_log as int, j as int, n as int));
            }
            let mask = random_mask_vec((glwe_size - 1) * n, &mut mask_source);
            proof {
                assert(mask@ =~= fresh_mask(
                    pksk_seed,
                    e as int * ((glwe_size as int - 1) * (n as int)),
                    (glwe_size as int - 1) * (n as int),
                ));
            }
            proof {
                vstd::arithmetic::div_mod::lemma_fundamental_div_mod(
                    output_sk.data@.len() as int,
                    n as int,
                );
                vstd::arithmetic::mul::lemma_mul_is_commutative(
                    n as int,
                    output_sk.glwe_dimension_spec(),
                );
                assert((e as int + 1) * (n as int) == (e as int) * (n as int) + n)
                    by (nonlinear_arith);
            }
            let mut body = glwe_body_from_mask(
                output_sk,
                &message,
                &mask,
                params.packing_ks_key_noise_distribution.bound_log2,
                &mut engine.source,
            );
            let ghost new_body = body@;
            bodies.append(&mut body);
            proof {
                assert forall|w: int| 0 <= w < (e + 1) as int * (n as int) implies
                    #[trigger] bodies@[w] == seeded_pksk_body_word(
                    self.glwe_secret_key.data@,
                    private_compression_key.post_packing_ks_key.data@,
                    base_log as int,
                    level as int,
                    glwe_size as int - 1,
                    n as int,
                    pksk_seed,
                    seed0,
                    drawn0 + 2,
                    params.packing_ks_key_noise_distribution.bound_log2 as int,
                    w,
                ) by {
                    if w < e as int * (n as int) {
                        assert(bodies@[w] == bodies@.subrange(
                            0,
                            e as int * (n as int),
                        )[w]);
                    } else {
                        let t = w - e as int * (n as int);
                        vstd::arithmetic::div_mod::lemma_fundamental_div_mod_converse(
                            w,
                            n as int,
                            e as int,
                            t,
                        );
                        assert(bodies@[w] == new_body[t]);
                    }
                }
                assert((e + 1) as int * ((glwe_size as int - 1) * (n as int)) == e as int * ((
                glwe_size as int - 1) * (n as int)) + (glwe_size as int - 1) * (n as int))
                    by (nonlinear_arith);
            }
            e += 1;
        }
        proof {
            assert((entries as int) * (n as int) == (input_dim as int) * ((level as int) * (
            n as int))) by (nonlinear_arith)
                requires
                    entries == (input_dim as int) * (level as int),
            ;
            lemma_seeded_sizes(level as int, glwe_size as int, n as int);
            vstd::arithmetic::div_mod::lemma_fundamental_div_mod_converse(
                bodies@.len() as int,
                (level as int) * (n as int),
                input_dim as int,
                0,
            );
        }
        let seeded_pksk = SeededLwePackingKeyswitchKey {
            bodies,
            compression_seed: pksk_seed,
            decomp_base_log: params.packing_ks_base_log,
            decomp_level_count: params.packing_ks_level,
            output_glwe_size: GlweSize(glwe_size),
            output_polynomial_size: output_sk.polynomial_size,
            ciphertext_modulus: CiphertextModulus,
        };
        let glwe_compression_key = SeededGlweCompressionKey {
            packing_key_switching_key: seeded_pksk,
            lwe_per_glwe: params.lwe_per_glwe,
            polynomial_size: match self.parameters.pbs_params {
                crate::parameters::PBSParameters::PBS(p) => p.polynomial_size,
                crate::parameters::PBSParameters::MultiBitPBS(p) => {
                    proof {
                        assert(false);
                    }
                    p.base.polynomial_size
                },
            },
        };
        let glwe_decompression_key = self.new_seeded_decompression_key(
            private_compression_key,
            engine,
        );
        (glwe_compression_key, glwe_decompression_key)
    }

    /// The seeded blind rotation key half of the derivation.
    fn new_seeded_decompression_key(
        &self,
        private_compression_key: &GlweCompressionPrivateKeys,
        engine: &mut ShortintEngine,
    ) -> (r: SeededGlweDecompressionKey)
        requires
            self.wf(),
            private_compression_key.wf(),
        ensures
            r.wf(),
            r.lwe_per_glwe == private_compression_key.params.lwe_per_glwe,
            r.blind_rotate_key.decomp_base_log == private_compression_key.params.br_base_log,
            r.blind_rotate_key.decomp_level_count == private_compression_key.params.br_level,
            r.blind_rotate_key.glwe_size.0 == self.classic_parameters().glwe_dimension.0 + 1,
            r.blind_rotate_key.polynomial_size == self.classic_parameters().polynomial_size,
            r.blind_rotate_key.input_lwe_dimension_spec()
                == private_compression_key.params.packing_ks_glwe_dimension.0
                * private_compression_key.params.packing_ks_polynomial_size.0,
            final(engine).source.seed_spec() == old(engine).source.seed_spec(),
            final(engine).source.drawn_spec() == old(engine).source.drawn_spec() + 2 + ((
            private_compression_key.post_packing_ks_key.glwe_dimension_spec()
                * private_compression_key.post_packing_ks_key.polynomial_size.0) * ((
            private_compression_key.params.br_level.0 as int) * (
            self.glwe_secret_key.glwe_dimension_spec() + 1))) * (
            self.glwe_secret_key.polynomial_size.0 as int),
            r.blind_rotate_key.compression_seed == ((csprng_word(
                old(engine).source.seed_spec(),
                old(engine).source.drawn_spec(),
            ) as u128) << 64) | (csprng_word(
                old(engine).source.seed_spec(),
                old(engine).source.drawn_spec() + 1,
            ) as u128),
            forall|w: int|
                0 <= w < r.blind_rotate_key.bodies@.len()
                    ==> #[trigger] r.blind_rotate_key.bodies@[w] == seeded_bsk_body_word(
                    private_compression_key.post_packing_ks_key.data@,
                    self.glwe_secret_key.data@,
                    private_compression_key.params.br_base_log.0 as int,
                    private_compression_key.params.br_level.0 as int,
                    self.glwe_secret_key.glwe_dimension_spec() + 1,
                    self.glwe_secret_key.polynomial_size.0 as int,
                    r.blind_rotate_key.compression_seed,
                    old(engine).source.seed_spec(),
                    old(engine).source.drawn_spec() + 2,
                    self.classic_parameters().glwe_noise_distribution.bound_log2 as int,
                    w,
                ),
    {
        let params = &private_compression_key.params;
        let output_sk = &self.glwe_secret_key;
        let n = output_sk.polynomial_size.0;
        let glwe_size = output_sk.glwe_dimension().0 + 1;
        let level = params.br_level.0;
        let base_log = params.br_base_log.0;
        let packing_lwe_key = private_compression_key.post_packing_ks_key.as_lwe_secret_key();
        let input_dim = packing_lwe_key.data.len();
        let ghost seed0 = old(engine).source.seed_spec();
        let ghost drawn0 = old(engine).source.drawn_spec();
        let seed_hi = engine.source.random_u64();
        let seed_lo = engine.source.random_u64();
        let bsk_seed: u128 = ((seed_hi as u128) << 64) | (seed_lo as u128);
        let mut mask_source = RandomSource::new(bsk_seed);
        let glwe_noise = self.parameters.glwe_noise_distribution();
        let ghost dim = output_sk.glwe_dimension_spec();
        proof {
            lemma_seeded_sizes(level as int, glwe_size as int, n as int);
            vstd::arithmetic::div_mod::lemma_fundamental_div_mod(
                private_compression_key.post_packing_ks_key.data@.len() as int,
                private_compression_key.post_packing_ks_key.polynomial_size.0 as int,
            );
            vstd::arithmetic::mul::lemma_mul_is_commutative(
                private_compression_key.post_packing_ks_key.polynomial_size.0 as int,
                private_compression_key.post_packing_ks_key.glwe_dimension_spec(),
            );
            assert(1 <= (level as int) * (glwe_size as int) <= 0x80) by (nonlinear_arith)
                requires
                    1 <= level <= 8,
                    2 <= glwe_size <= 8,
            ;
            assert((input_dim as int) * ((level as int) * (glwe_size as int)) <= 0x800_0000 && 0
                <= (input_dim as int) * ((level as int) * (glwe_size as int)))
                by (nonlinear_arith)
                requires
                    0 <= input_dim <= 0x10_0000,
                    1 <= (level as int) * (glwe_size as int) <= 0x80,
            ;
        }
        let rows = input_dim * (level * glwe_size);
        let mut bodies: Vec<u64> = Vec::new();
        let mut e: usize = 0;
        while e < rows
            invariant
                self.wf(),
                private_compression_key.wf(),
                output_sk == &self.glwe_secret_key,
                n == output_sk.polynomial_size.0,
                1 <= n <= 0x10_0000,
                glwe_size == output_sk.glwe_dimension_spec() + 1,
                2 <= glwe_size <= 8,
                level == params.br_level.0,
                1 <= level <= 8,
                base_log == params.br_base_log.0,
                (base_log as int) * (level as int) <= 64,
                1 <= base_log <= 63,
                params == &private_compression_key.params,
                packing_lwe_key.wf(),
                input_dim == packing_lwe_key.data.len(),
                input_dim <= 0x10_0000,
                rows == (input_dim as int) * ((level as int) * (glwe_size as int)),
                rows <= 0x800_0000,
                glwe_noise.bound_log2 < 63,
                glwe_noise == self.classic_parameters().glwe_noise_distribution,
                e <= rows,
                bodies@.len() == e * n,
                dim == output_sk.glwe_dimension_spec(),
                glwe_size == dim + 1,
                packing_lwe_key.data@ == private_compression_key.post_packing_ks_key.data@,
                engine.source.seed_spec() == seed0,
                engine.source.drawn_spec() == drawn0 + 2 + e as int * (n as int),
                mask_source.seed_spec() == bsk_seed,
                mask_source.drawn_spec() == e as int * ((glwe_size as int - 1) * (n as int)),
                forall|w: int|
                    0 <= w < e as int * (n as int) ==> #[trigger] bodies@[w]
                        == seeded_bsk_body_word(
                        private_compression_key.post_packing_ks_key.data@,
                        self.glwe_secret_key.data@,
                        base_log as int,
                        level as int,
                        glwe_size as int,
                        n as int,
                        bsk_seed,
                        seed0,
                        drawn0 + 2,
                        glwe_noise.bound_log2 as int,
                        w,
                    ),
            decreases rows - e,
        {
            proof {
                vstd::arithmetic::div_mod::lemma_fundamental_div_mod(
                    e as int,
                    (level as int) * (glwe_size as int),
                );
                vstd::arithmetic::div_mod::lemma_mod_bound(
                    e as int,
                    (level as int) * (glwe_size as int),
                );
                vstd::arithmetic::mul::lemma_mul_is_commutative(
                    (level as int) * (glwe_size as int),
                    input_dim as int,
                );
                vstd::arithmetic::div_mod::lemma_multiply_divide_lt(
                    e as int,
                    (level as int) * (glwe_size as int),
                    input_dim as int,
                );
                vstd::arithmetic::div_mod::lemma_div_is_ordered(
                    0,
                    e as int,
                    (level as int) * (glwe_size as int),
                );
                assert(1 <= (level as int) * (glwe_size as int) <= 0x80) by (nonlinear_arith)
                    requires
                        1 <= level <= 8,
                        2 <= glwe_size <= 8,
                ;
            }
            let group = level * glwe_size;
            let i = e / group;
            let rem = e % group;
            proof {
                vstd::arithmetic::div_mod::lemma_fundamental_div_mod(
                    rem as int,
                    glwe_size as int,
                );
                vstd::arithmetic::div_mod::lemma_mod_bound(rem as int, glwe_size as int);
                vstd::arithmetic::mul::lemma_mul_is_commutative(
                    glwe_size as int,
                    level as int,
                );
                vstd::arithmetic::div_mod::lemma_multiply_divide_lt(
                    rem as int,
                    glwe_size as int,
                    level as int,
                );
                vstd::arithmetic::div_mod::lemma_div_is_ordered(0, rem as int, glwe_size as int);
                assert(1 <= (base_log as int) * ((rem as int / (glwe_size as int)) + 1) <= 64)
                    by (nonlinear_arith)
                    requires
                        1 <= base_log,
                        (base_log as int) * (level as int) <= 64,
                        0 <= rem as int / (glwe_size as int) < level,
                ;
            }
            let j = rem / glwe_size + 1;
            let p = rem % glwe_size;
            let shift = 64 - base_log * j;
            let s_i = packing_lwe_key.data[i];
            let mut message: Vec<u64> = crate::bootstrap::zero_vec(n);
            if p + 1 < glwe_size {
                proof {
                    vstd::arithmetic::div_mod::lemma_fundamental_div_mod(
                        output_sk.data@.len() as int,
                        n as int,
                    );
                    vstd::arithmetic::mul::lemma_mul_is_commutative(
                        n as int,
                        output_sk.glwe_dimension_spec(),
                    );
                    assert((p as int + 1) * (n as int) <= (glwe_size as int - 1) * (n as int)
                        && 0 <= (p as int) * (n as int) && (p as int + 1) * (n as int) == (
                    p as int) * (n as int) + n) by (nonlinear_arith)
                        requires
                            0 <= p,
                            p + 1 < glwe_size,
                            1 <= n,
                    ;
                }
                let mut t: usize = 0;
                while t < n
                    invariant
                        output_sk.wf(),
                        t <= n,
                        message@.len() == n,
                        shift <= 63,
                        shift == 64 - (base_log as int) * (j as int),
                        (p as int) * (n as int) + n <= output_sk.data.len(),
                        (p as int) * (n as int) >= 0,
                        forall|u: int|
                            0 <= u < t ==> #[trigger] message@[u] == 0u64.wrapping_sub(
                                s_i.wrapping_mul(output_sk.data@[p as int * (n as int) + u]) << ((
                                64 - (base_log as int) * (j as int)) as u64),
                            ),
                    decreases n - t,
                {
                    let key_coeff = output_sk.data[p * n + t];
                    let value = 0u64.wrapping_sub(s_i.wrapping_mul(key_coeff) << (shift as u64));
                    message[t] = value;
                    t += 1;
                }
                proof {
                    assert(message@ =~= bsk_row_message(
                        s_i,
                        output_sk.data@,
                        base_log as int,
                        j as int,
                        p as int,
                        glwe_size as int,
                        n as int,
                    ));
                }
            } else {
                message[0] = s_i << (shift as u64);
                proof {
                    assert(message@ =~= bsk_row_message(
                        s_i,
                        output_sk.data@,
                        base_log as int,
                        j as int,
                        p as int,
                        glwe_size as int,
                        n as int,
                    ));
                }
            }
            let ghost mask_drawn_before = mask_source.drawn_spec();
            let mask = random_mask_vec((glwe_size - 1) * n, &mut mask_source);
            proof {
                assert(mask@ =~= fresh_mask(
                    bsk_seed,
                    e as int * ((glwe_size as int - 1) * (n as int)),
                    (glwe_size as int - 1) * (n as int),
                ));
            }
            proof {
                vstd::arithmetic::div_mod::lemma_fundamental_div_mod(
                    output_sk.data@.len() as int,
                    n as int,
                );
                vstd::arithmetic::mul::lemma_mul_is_commutative(
                    n as int,
                    output_sk.glwe_dimension_spec(),
                );
                assert((e as int + 1) * (n as int) == (e as int) * (n as int) + n)
                    by (nonlinear_arith);
            }
            let ghost bodies_before = bodies@;
            let ghost noise_before = engine.source.drawn_spec();
            let mut body = glwe_body_from_mask(
                output_sk,
                &message,
                &mask,
                glwe_noise.bound_log2,
                &mut engine.source,
            );
            let ghost new_body = body@;
            bodies.append(&mut body);
            proof {
                vstd::arithmetic::div_mod::lemma_fundamental_div_mod(e as int, group as int);
                vstd::arithmetic::div_mod::lemma_fundamental_div_mod(
                    rem as int,
                    glwe_size as int,
                );
                assert(e as int == (i as int) * ((level as int) * (glwe_size as int))
                    + rem as int) by (nonlinear_arith)
                    requires
                        e as int == (group as int) * (i as int) + rem as int,
                        group as int == (level as int) * (glwe_size as int),
                ;
                assert(e as int == (i as int * level as int + rem as int / (glwe_size as int))
                    * (glwe_size as int) + rem as int % (glwe_size as int)) by (nonlinear_arith)
                    requires
                        e as int == (i as int) * ((level as int) * (glwe_size as int))
                            + rem as int,
                        rem as int == (glwe_size as int) * (rem as int / (glwe_size as int))
                            + rem as int % (glwe_size as int),
                ;
                vstd::arithmetic::div_mod::lemma_fundamental_div_mod_converse(
                    e as int,
                    glwe_size as int,
                    i as int * level as int + rem as int / (glwe_size as int),
                    rem as int % (glwe_size as int),
                );
                vstd::arithmetic::div_mod::lemma_fundamental_div_mod_converse(
                    i as int * level as int + rem as int / (glwe_size as int),
                    level as int,
                    i as int,
                    rem as int / (glwe_size as int),
                );
                assert forall|w: int| 0 <= w < (e + 1) as int * (n as int) implies
                    #[trigger] bodies@[w] == seeded_bsk_body_word(
                    private_compression_key.post_packing_ks_key.data@,
                    self.glwe_secret_key.data@,
                    base_log as int,
                    level as int,
                    glwe_size as int,
                    n as int,
                    bsk_seed,
                    seed0,
                    drawn0 + 2,
                    glwe_noise.bound_log2 as int,
                    w,
                ) by {
                    if w < e as int * (n as int) {
                        assert(bodies@[w] == bodies_before[w]);
                    } else {
                        let t = w - e as int * (n as int);
                        vstd::arithmetic::div_mod::lemma_fundamental_div_mod_converse(
                            w,
                            n as int,
                            e as int,
                            t,
                        );
                        assert(bodies@[w] == new_body[t]);
                    }
                }
                assert((e + 1) as int * ((glwe_size as int - 1) * (n as int)) == e as int * ((
                glwe_size as int - 1) * (n as int)) + (glwe_size as int - 1) * (n as int))
                    by (nonlinear_arith);
            }
            e += 1;
        }
        proof {
            assert((rows as int) * (n as int) == (input_dim as int) * ((level as int) * (
            glwe_size as int) * (n as int))) by (nonlinear_arith)
                requires
                    rows == (input_dim as int) * ((level as int) * (glwe_size as int)),
            ;
            lemma_seeded_sizes(level as int, glwe_size as int, n as int);
            vstd::arithmetic::div_mod::lemma_fundamental_div_mod_converse(
                bodies@.len() as int,
                (level as int) * (glwe_size as int) * (n as int),
                input_dim as int,
                0,
            );
        }
        SeededGlweDecompressionKey {
            blind_rotate_key: SeededLweBootstrapKey {
                bodies,
                compression_seed: bsk_seed,
                glwe_size: GlweSize(glwe_size),
                polynomial_size: output_sk.polynomial_size,
                decomp_base_log: params.br_base_log,
                decomp_level_count: params.br_level,
                ciphertext_modulus: CiphertextModulus,
            },
            lwe_per_glwe: params.lwe_per_glwe,
        }
    }
}

/// The mask region of a GLWE row is shorter than the whole row.
pub open spec fn mask_len_ok(glwe_size: int, n: int) -> bool {
    (glwe_size - 1) * n + n == glwe_size * n
}

/// Shared size bounds of the seeded layouts.
proof fn lemma_seeded_sizes(level: int, glwe_size: int, n: int)
    by (nonlinear_arith)
    requires
        1 <= level <= 16,
        2 <= glwe_size <= 0x20,
        1 <= n <= 0x10_0000,
    ensures
        1 <= level * n <= 0x100_0000,
        1 <= level * glwe_size * n <= 0x2000_0000,
        1 <= level * glwe_size <= 0x200,
        glwe_size * n <= 0x200_0000,
        0 <= (glwe_size - 1) * n,
        (glwe_size - 1) * n + n == glwe_size * n,
{
}


} // verus!
