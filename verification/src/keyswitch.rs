//! Keyswitching keys and the packing keyswitch: the homomorphic linear
//! transform that folds a list of LWE ciphertexts into one GLWE ciphertext
//! under a different key, placing the ciphertext at list index `idx` in the
//! coefficient of degree `idx`.

use vstd::prelude::*;

use crate::entities::{encrypt_glwe, GlweSecretKey, LweCiphertextList, LweSecretKey, GlweCiphertext};
use crate::parameters::{
    CiphertextModulus, DecompositionBaseLog, DecompositionLevelCount, DynamicDistribution,
    GlweSize, LweDimension, LweSize, PolynomialSize,
};
use crate::polynomial::{monomial_mul_acc, scalar_mul_sub};
use crate::random::RandomSource;

verus! {

/// A packing keyswitch key: for every element of the input LWE key and
/// every decomposition level, one GLWE encryption of that key element
/// scaled by the level's gadget factor, stored flat.
pub struct LwePackingKeyswitchKey {
    pub data: Vec<u64>,
    pub decomp_base_log: DecompositionBaseLog,
    pub decomp_level_count: DecompositionLevelCount,
    pub output_glwe_size: GlweSize,
    pub output_polynomial_size: PolynomialSize,
    pub ciphertext_modulus: CiphertextModulus,
}

impl LwePackingKeyswitchKey {
    /// Words of one keyswitch entry: `level` GLWE ciphertexts for one
    /// input key element.
    pub open spec fn entry_size_spec(&self) -> int {
        (self.decomp_level_count.0 as int) * (self.output_glwe_size.0 as int)
            * (self.output_polynomial_size.0 as int)
    }

    pub open spec fn wf(&self) -> bool {
        &&& 1 <= self.decomp_base_log.0
        &&& 1 <= self.decomp_level_count.0
        &&& (self.decomp_base_log.0 as int) * (self.decomp_level_count.0 as int) <= 64
        &&& self.decomp_base_log.0 <= 63
        &&& self.output_glwe_size.0 >= 2
        &&& 1 <= self.output_polynomial_size.0 <= 0x10_0000
        &&& self.output_glwe_size.0 <= 0x20
        &&& self.decomp_level_count.0 <= 16
        &&& self.data@.len() == self.input_lwe_dimension_spec() * self.entry_size_spec()
        &&& self.input_lwe_dimension_spec() <= 0x10_0000
    }

    pub open spec fn input_lwe_dimension_spec(&self) -> int {
        (self.data@.len() as int) / self.entry_size_spec()
    }

    pub fn decomposition_base_log(&self) -> (r: DecompositionBaseLog)
        ensures
            r == self.decomp_base_log,
    {
        self.decomp_base_log
    }

    pub fn decomposition_level_count(&self) -> (r: DecompositionLevelCount)
        ensures
            r == self.decomp_level_count,
    {
        self.decomp_level_count
    }

    pub fn output_glwe_size(&self) -> (r: GlweSize)
        ensures
            r == self.output_glwe_size,
    {
        self.output_glwe_size
    }

    pub fn output_polynomial_size(&self) -> (r: PolynomialSize)
        ensures
            r == self.output_polynomial_size,
    {
        self.output_polynomial_size
    }

    pub fn ciphertext_modulus(&self) -> (r: CiphertextModulus)
        ensures
            r == self.ciphertext_modulus,
    {
        self.ciphertext_modulus
    }

    pub fn input_key_lwe_dimension(&self) -> (r: LweDimension)
        requires
            self.wf(),
        ensures
            r.0 == self.input_lwe_dimension_spec(),
    {
        proof {
            lemma_entry_size_bounds(
                self.decomp_level_count.0 as int,
                self.output_glwe_size.0 as int,
                self.output_polynomial_size.0 as int,
            );
            vstd::arithmetic::div_mod::lemma_fundamental_div_mod_converse(
                self.data@.len() as int,
                self.entry_size_spec(),
                self.input_lwe_dimension_spec(),
                0,
            );
        }
        let entry = self.decomp_level_count.0 * self.output_glwe_size.0
            * self.output_polynomial_size.0;
        LweDimension(self.data.len() / entry)
    }
}

/// The whole entry size is positive and fits comfortably in a machine word.
proof fn lemma_entry_size_bounds(level: int, glwe_size: int, poly: int)
    by (nonlinear_arith)
    requires
        1 <= level <= 16,
        2 <= glwe_size <= 0x20,
        1 <= poly <= 0x10_0000,
    ensures
        1 <= level * glwe_size * poly,
        level * glwe_size * poly <= 0x2000_0000,
        level * glwe_size <= 0x200,
        glwe_size * poly <= 0x200_0000,
{
}

/// The gadget plaintext a packing keyswitch key entry encrypts: the key
/// bit scaled to the top `base_log * j` bits of the word.
pub open spec fn pksk_scaled_bit(s_i: u64, base_log: int, j: int) -> u64 {
    s_i << ((64 - base_log * j) as u64)
}

/// The message polynomial of the level-`j` entry for key bit `s_i`: the
/// scaled bit in slot zero of an otherwise zero polynomial.
pub open spec fn pksk_message(s_i: u64, base_log: int, j: int, n: int) -> Seq<u64> {
    Seq::new(
        n as nat,
        |t: int| if t == 0 {
            pksk_scaled_bit(s_i, base_log, j)
        } else {
            0u64
        },
    )
}

/// One GLWE-sized entry of a generated key, as a slice of its data.
pub open spec fn pksk_entry(data: Seq<u64>, e: int, entry_len: int) -> Seq<u64> {
    data.subrange(e * entry_len, e * entry_len + entry_len)
}

/// Generates a packing keyswitch key from the input LWE key to the output
/// GLWE key: entry `i * level + (j - 1)` is a fresh GLWE encryption of the
/// `i`-th input key bit scaled for decomposition level `j`, the entries
/// drawn from the source in that order.
pub fn allocate_and_generate_new_lwe_packing_keyswitch_key(
    input_lwe_sk: &LweSecretKey,
    output_glwe_sk: &GlweSecretKey,
    decomp_base_log: DecompositionBaseLog,
    decomp_level_count: DecompositionLevelCount,
    noise_distribution: DynamicDistribution,
    ciphertext_modulus: CiphertextModulus,
    source: &mut RandomSource,
) -> (r: LwePackingKeyswitchKey)
    requires
        input_lwe_sk.wf(),
        output_glwe_sk.wf(),
        1 <= decomp_base_log.0 <= 63,
        1 <= decomp_level_count.0 <= 16,
        (decomp_base_log.0 as int) * (decomp_level_count.0 as int) <= 64,
        1 <= output_glwe_sk.polynomial_size.0 <= 0x10_0000,
        1 <= output_glwe_sk.glwe_dimension_spec(),
        output_glwe_sk.glwe_dimension_spec() + 1 <= 0x20,
        input_lwe_sk.lwe_dimension_spec() <= 0x10_0000,
        noise_distribution.bound_log2 < 63,
        (output_glwe_sk.glwe_dimension_spec() + 1) * output_glwe_sk.polynomial_size.0
            <= usize::MAX,
    ensures
        r.wf(),
        r.decomp_base_log == decomp_base_log,
        r.decomp_level_count == decomp_level_count,
        r.output_polynomial_size == output_glwe_sk.polynomial_size,
        r.output_glwe_size.0 == output_glwe_sk.glwe_dimension_spec() + 1,
        r.input_lwe_dimension_spec() == input_lwe_sk.lwe_dimension_spec(),
        final(source).seed_spec() == old(source).seed_spec(),
        final(source).drawn_spec() == old(source).drawn_spec() + (
        input_lwe_sk.lwe_dimension_spec() * decomp_level_count.0) * ((
        output_glwe_sk.glwe_dimension_spec() + 1) * output_glwe_sk.polynomial_size.0),
        forall|e: int|
            0 <= e < input_lwe_sk.lwe_dimension_spec() * decomp_level_count.0
                ==> #[trigger] pksk_entry(
                r.data@,
                e,
                (output_glwe_sk.glwe_dimension_spec() + 1) * output_glwe_sk.polynomial_size.0,
            ) == crate::entities::encrypted_glwe_data(
                output_glwe_sk.data@,
                pksk_message(
                    input_lwe_sk.data@[e / (decomp_level_count.0 as int)],
                    decomp_base_log.0 as int,
                    e % (decomp_level_count.0 as int) + 1,
                    output_glwe_sk.polynomial_size.0 as int,
                ),
                old(source).seed_spec(),
                old(source).drawn_spec() + e * ((output_glwe_sk.glwe_dimension_spec() + 1)
                    * output_glwe_sk.polynomial_size.0),
                noise_distribution.bound_log2 as int,
                output_glwe_sk.glwe_dimension_spec(),
                output_glwe_sk.polynomial_size.0 as int,
            ),
{
    let n = output_glwe_sk.polynomial_size.0;
    let glwe_size = output_glwe_sk.glwe_dimension().0 + 1;
    let input_dim = input_lwe_sk.data.len();
    let level = decomp_level_count.0;
    let base_log = decomp_base_log.0;
    let ghost esz = (glwe_size as int) * (n as int);
    let ghost entry = (level as int) * esz;
    let ghost seed0 = old(source).seed_spec();
    let ghost drawn0 = old(source).drawn_spec();
    let ghost dim = output_glwe_sk.glwe_dimension_spec();
    proof {
        lemma_entry_size_bounds(level as int, glwe_size as int, n as int);
        assert((dim + 1) * (n as int) == dim * (n as int) + n) by (nonlinear_arith);
        assert(entry == (level as int) * (glwe_size as int) * (n as int)) by (nonlinear_arith)
            requires
                entry == (level as int) * esz,
                esz == (glwe_size as int) * (n as int),
        ;
        assert((0int * (level as int)) * esz == 0 && 0int * entry == 0) by (nonlinear_arith);
    }
    let mut data: Vec<u64> = Vec::new();
    let mut i: usize = 0;
    while i < input_dim
        invariant
            input_lwe_sk.wf(),
            output_glwe_sk.wf(),
            i <= input_dim,
            input_dim == input_lwe_sk.data.len(),
            n == output_glwe_sk.polynomial_size.0,
            dim == output_glwe_sk.glwe_dimension_spec(),
            glwe_size == dim + 1,
            1 <= base_log <= 63,
            1 <= level <= 16,
            (base_log as int) * (level as int) <= 64,
            base_log == decomp_base_log.0,
            level == decomp_level_count.0,
            noise_distribution.bound_log2 < 63,
            1 <= n <= 0x10_0000,
            2 <= glwe_size <= 0x20,
            input_dim <= 0x10_0000,
            esz == (glwe_size as int) * (n as int),
            entry == (level as int) * esz,
            esz <= usize::MAX,
            data@.len() == i * entry,
            source.seed_spec() == seed0,
            source.drawn_spec() == drawn0 + (i as int * level as int) * esz,
            forall|e: int|
                0 <= e < i as int * level as int ==> #[trigger] pksk_entry(data@, e, esz)
                    == crate::entities::encrypted_glwe_data(
                    output_glwe_sk.data@,
                    pksk_message(
                        input_lwe_sk.data@[e / (level as int)],
                        base_log as int,
                        e % (level as int) + 1,
                        n as int,
                    ),
                    seed0,
                    drawn0 + e * esz,
                    noise_distribution.bound_log2 as int,
                    dim,
                    n as int,
                ),
        decreases input_dim - i,
    {
        let s_i = input_lwe_sk.data[i];
        let mut j: usize = 1;
        while j <= level
            invariant
                input_lwe_sk.wf(),
                output_glwe_sk.wf(),
                1 <= j <= level + 1,
                i < input_dim,
                input_dim == input_lwe_sk.data.len(),
                n == output_glwe_sk.polynomial_size.0,
                dim == output_glwe_sk.glwe_dimension_spec(),
                glwe_size == dim + 1,
                1 <= base_log <= 63,
                1 <= level <= 16,
                (base_log as int) * (level as int) <= 64,
                base_log == decomp_base_log.0,
                level == decomp_level_count.0,
                noise_distribution.bound_log2 < 63,
                1 <= n <= 0x10_0000,
                2 <= glwe_size <= 0x20,
                input_dim <= 0x10_0000,
                esz == (glwe_size as int) * (n as int),
                entry == (level as int) * esz,
                esz <= usize::MAX,
                s_i == input_lwe_sk.data@[i as int],
                data@.len() == i * entry + (j - 1) * esz,
                source.seed_spec() == seed0,
                source.drawn_spec() == drawn0 + (i as int * level as int + (j - 1)) * esz,
                forall|e: int|
                    0 <= e < i as int * level as int + (j - 1) ==> #[trigger] pksk_entry(
                        data@,
                        e,
                        esz,
                    ) == crate::entities::encrypted_glwe_data(
                        output_glwe_sk.data@,
                        pksk_message(
                            input_lwe_sk.data@[e / (level as int)],
                            base_log as int,
                            e % (level as int) + 1,
                            n as int,
                        ),
                        seed0,
                        drawn0 + e * esz,
                        noise_distribution.bound_log2 as int,
                        dim,
                        n as int,
                    ),
            decreases level + 1 - j,
        {
            proof {
                assert((base_log as int) * (j as int) <= (base_log as int) * (level as int))
                    by (nonlinear_arith)
                    requires
                        1 <= j <= level,
                        1 <= base_log,
                ;
                assert((base_log as int) * (j as int) >= 1) by (nonlinear_arith)
                    requires
                        1 <= j,
                        1 <= base_log,
                ;
            }
            let shift = 64 - base_log * j;
            let mut message: Vec<u64> = Vec::new();
            message.push(if shift == 64 {
                0u64
            } else {
                s_i << (shift as u64)
            });
            while message.len() < n
                invariant
                    message@.len() >= 1,
                    message@.len() <= n,
                    forall|t: int| 1 <= t < message@.len() ==> message@[t] == 0u64,
                    message@[0] == pksk_scaled_bit(s_i, base_log as int, j as int),
                decreases n - message@.len(),
            {
                message.push(0u64);
            }
            proof {
                assert(message@ =~= pksk_message(s_i, base_log as int, j as int, n as int));
            }
            let ghost e0 = i as int * level as int + (j - 1);
            let ghost data_before = data@;
            let ghost drawn_before = source.drawn_spec();
            let glwe = encrypt_glwe(
                output_glwe_sk,
                &message,
                noise_distribution.bound_log2,
                source,
            );
            let mut glwe_data = glwe.data;
            proof {
                assert(((j - 1) as int + 1) * esz == ((j - 1) as int) * esz + esz)
                    by (nonlinear_arith);
                assert((j as int) * esz <= (level as int) * esz) by (nonlinear_arith)
                    requires
                        1 <= j <= level,
                        0 <= esz,
                ;
                assert((i as int + 1) * entry == (i as int) * entry + entry) by (nonlinear_arith);
                assert((i as int) * entry >= 0) by (nonlinear_arith)
                    requires
                        0 <= i,
                        0 <= entry,
                ;
                assert(data_before.len() == e0 * esz) by (nonlinear_arith)
                    requires
                        data_before.len() == i as int * entry + (j - 1) * esz,
                        entry == (level as int) * esz,
                        e0 == i as int * level as int + (j - 1),
                ;
                assert((e0 + 1) * esz == e0 * esz + esz) by (nonlinear_arith);
            }
            data.append(&mut glwe_data);
            proof {
                assert(glwe.data@.len() == esz);
                assert forall|e: int| 0 <= e < e0 + 1 implies #[trigger] pksk_entry(
                    data@,
                    e,
                    esz,
                ) == crate::entities::encrypted_glwe_data(
                    output_glwe_sk.data@,
                    pksk_message(
                        input_lwe_sk.data@[e / (level as int)],
                        base_log as int,
                        e % (level as int) + 1,
                        n as int,
                    ),
                    seed0,
                    drawn0 + e * esz,
                    noise_distribution.bound_log2 as int,
                    dim,
                    n as int,
                ) by {
                    if e < e0 {
                        assert((e + 1) * esz <= e0 * esz && 0 <= e * esz && e * esz + esz == (e
                            + 1) * esz) by (nonlinear_arith)
                            requires
                                0 <= e < e0,
                                0 <= esz,
                        ;
                        assert(pksk_entry(data@, e, esz) =~= pksk_entry(data_before, e, esz));
                    } else {
                        vstd::arithmetic::div_mod::lemma_fundamental_div_mod_converse(
                            e0,
                            level as int,
                            i as int,
                            (j - 1) as int,
                        );
                        assert(pksk_entry(data@, e0, esz) =~= glwe.data@);
                        assert(glwe.data@ == crate::entities::encrypted_glwe_data(
                            output_glwe_sk.data@,
                            message@,
                            seed0,
                            drawn_before,
                            noise_distribution.bound_log2 as int,
                            dim,
                            n as int,
                        ));
                    }
                }
                assert(source.drawn_spec() == drawn0 + (i as int * level as int + j) * esz)
                    by (nonlinear_arith)
                    requires
                        source.drawn_spec() == drawn_before + dim * (n as int) + n,
                        drawn_before == drawn0 + e0 * esz,
                        e0 == i as int * level as int + (j - 1),
                        esz == (glwe_size as int) * (n as int),
                        glwe_size == dim + 1,
                ;
            }
            j += 1;
        }
        proof {
            assert((i as int + 1) * entry == (i as int) * entry + (level as int) * esz)
                by (nonlinear_arith)
                requires
                    entry == (level as int) * esz,
            ;
            assert((i as int + 1) * (level as int) == i as int * level as int + level)
                by (nonlinear_arith);
            assert(((i as int + 1) * (level as int)) * esz == (i as int * level as int + level)
                * esz) by (nonlinear_arith)
                requires
                    (i as int + 1) * (level as int) == i as int * level as int + level,
            ;
        }
        i += 1;
    }
    proof {
        lemma_entry_size_bounds(level as int, glwe_size as int, n as int);
        assert(entry >= 1) by (nonlinear_arith)
            requires
                entry == (level as int) * esz,
                esz == (glwe_size as int) * (n as int),
                level >= 1,
                glwe_size >= 2,
                n >= 1,
        ;
        vstd::arithmetic::div_mod::lemma_fundamental_div_mod_converse(
            data@.len() as int,
            entry,
            input_dim as int,
            0,
        );
        assert((input_dim as int * level as int) * esz == (input_dim as int) * ((level as int)
            * esz)) by (nonlinear_arith);
        assert((input_dim as int) * entry == (input_dim as int) * ((level as int) * (
        glwe_size as int) * (n as int))) by (nonlinear_arith)
            requires
                entry == (level as int) * (glwe_size as int) * (n as int),
        ;
    }
    LwePackingKeyswitchKey {
        data,
        decomp_base_log,
        decomp_level_count,
        output_glwe_size: GlweSize(glwe_size),
        output_polynomial_size: output_glwe_sk.polynomial_size,
        ciphertext_modulus,
    }
}

/// The gadget digit at level `j` of a torus element: its top
/// `base_log * j` bits, masked to one digit.
pub open spec fn ks_decomposition_factor(a: u64, base_log: int, j: int) -> u64 {
    let shift = 64 - base_log * j;
    let raw = if shift == 0 {
        a
    } else {
        a >> (shift as u64)
    };
    raw & (((1u64 << (base_log as u64)) - 1) as u64)
}

/// The scratch buffer one ciphertext's keyswitch starts from: zeros with
/// the input body at the constant coefficient of the body polynomial.
pub open spec fn ks_scratch_init(body: u64, glwe_len: int, n: int) -> Seq<u64> {
    Seq::new(glwe_len as nat, |k: int| if k == glwe_len - n { body } else { 0u64 })
}

/// The scratch buffer after the first `steps` gadget subtractions of one
/// ciphertext's keyswitch: step `s` subtracts digit `s % level + 1` of
/// mask element `s / level` times the matching keyswitch row.
pub open spec fn ks_scratch_after(
    ksk_data: Seq<u64>,
    base_log: int,
    level: int,
    glwe_len: int,
    n: int,
    ct: Seq<u64>,
    ct_base: int,
    input_dim: int,
    steps: int,
) -> Seq<u64>
    decreases steps,
{
    if steps <= 0 {
        ks_scratch_init(ct[ct_base + input_dim], glwe_len, n)
    } else {
        let prev = ks_scratch_after(
            ksk_data,
            base_log,
            level,
            glwe_len,
            n,
            ct,
            ct_base,
            input_dim,
            steps - 1,
        );
        let i = (steps - 1) / level;
        let j = (steps - 1) % level + 1;
        let d = ks_decomposition_factor(ct[ct_base + i], base_log, j);
        let row = (i * level + (j - 1)) * glwe_len;
        Seq::new(glwe_len as nat, |k: int| prev[k].wrapping_sub(d.wrapping_mul(ksk_data[row + k])))
    }
}

/// The fully keyswitched scratch of ciphertext `idx` of a flat list.
pub open spec fn ks_keyswitched(
    ksk: LwePackingKeyswitchKey,
    input_data: Seq<u64>,
    idx: int,
) -> Seq<u64> {
    let level = ksk.decomp_level_count.0 as int;
    let n = ksk.output_polynomial_size.0 as int;
    let glwe_len = (ksk.output_glwe_size.0 as int) * n;
    let input_dim = ksk.input_lwe_dimension_spec();
    ks_scratch_after(
        ksk.data@,
        ksk.decomp_base_log.0 as int,
        level,
        glwe_len,
        n,
        input_data,
        idx * (input_dim + 1),
        input_dim,
        input_dim * level,
    )
}

/// One packed placement: the keyswitched polynomials of ciphertext `idx`
/// are multiplied by the monomial of degree `idx` and accumulated.
pub open spec fn ks_placed(prev: Seq<u64>, scratch: Seq<u64>, idx: int, n: int) -> Seq<u64> {
    Seq::new(
        prev.len(),
        |k: int|
            {
                let p = k / n;
                let j0 = k % n;
                let source = p * n + crate::polynomial::monomial_source_index(j0, idx, n);
                if crate::polynomial::monomial_sign_flips(j0, idx, n) {
                    prev[k].wrapping_sub(scratch[source])
                } else {
                    prev[k].wrapping_add(scratch[source])
                }
            },
    )
}

/// The packed output after folding the first `count` ciphertexts of the
/// list into the initial buffer.
pub open spec fn ks_packed(
    init: Seq<u64>,
    ksk: LwePackingKeyswitchKey,
    input_data: Seq<u64>,
    count: int,
    n: int,
) -> Seq<u64>
    decreases count,
{
    if count <= 0 {
        init
    } else {
        ks_placed(
            ks_packed(init, ksk, input_data, count - 1, n),
            ks_keyswitched(ksk, input_data, count - 1),
            count - 1,
            n,
        )
    }
}

/// Folds every ciphertext of `input` into `output`: ciphertext `idx` is
/// keyswitched to the output key and lands in the coefficient of degree
/// `idx` of the output GLWE ciphertext.
pub fn keyswitch_lwe_ciphertext_list_and_pack_in_glwe_ciphertext(
    ksk: &LwePackingKeyswitchKey,
    input: &LweCiphertextList,
    output: &mut GlweCiphertext,
)
    requires
        ksk.wf(),
        input.wf(),
        old(output).wf(),
        input.lwe_size.0 == ksk.input_lwe_dimension_spec() + 1,
        old(output).polynomial_size == ksk.output_polynomial_size,
        old(output).glwe_size_spec() == ksk.output_glwe_size.0,
        input.count_spec() <= ksk.output_polynomial_size.0,
    ensures
        final(output).wf(),
        final(output).polynomial_size == old(output).polynomial_size,
        final(output).glwe_size_spec() == old(output).glwe_size_spec(),
        final(output).data@.len() == old(output).data@.len(),
        // the whole output is the gadget-decomposed fold of the list,
        // each ciphertext placed at its own monomial degree
        final(output).data@ =~= ks_packed(
            old(output).data@,
            *ksk,
            input.data@,
            input.count_spec(),
            ksk.output_polynomial_size.0 as int,
        ),
{
    let n = ksk.output_polynomial_size.0;
    let glwe_size = ksk.output_glwe_size.0;
    let level = ksk.decomp_level_count.0;
    let base_log = ksk.decomp_base_log.0;
    let input_dim = ksk.input_key_lwe_dimension().0;
    let lwe_size = input_dim + 1;
    let count = input.data.len() / lwe_size;
    let key_len = ksk.data.len();
    let ghost entry = ksk.entry_size_spec();
    proof {
        lemma_entry_size_bounds(level as int, glwe_size as int, n as int);
        vstd::arithmetic::div_mod::lemma_fundamental_div_mod(
            input.data@.len() as int,
            lwe_size as int,
        );
        vstd::arithmetic::div_mod::lemma_fundamental_div_mod(
            old(output).data@.len() as int,
            n as int,
        );
        vstd::arithmetic::mul::lemma_mul_is_commutative(
            n as int,
            old(output).glwe_size_spec(),
        );
        vstd::arithmetic::mul::lemma_mul_is_commutative(
            lwe_size as int,
            input.count_spec(),
        );
    }
    let glwe_len = glwe_size * n;
    let mut idx: usize = 0;
    while idx < count
        invariant
            ksk.wf(),
            input.wf(),
            idx <= count,
            n == ksk.output_polynomial_size.0,
            glwe_size == ksk.output_glwe_size.0,
            level == ksk.decomp_level_count.0,
            base_log == ksk.decomp_base_log.0,
            input_dim == ksk.input_lwe_dimension_spec(),
            lwe_size == input_dim + 1,
            lwe_size == input.lwe_size.0,
            count == input.count_spec(),
            count <= n,
            input.data@.len() == input.data.len(),
            ksk.data@.len() == ksk.data.len(),
            glwe_len == glwe_size * n,
            glwe_len <= 0x200_0000,
            entry == ksk.entry_size_spec(),
            output.wf(),
            output.polynomial_size == old(output).polynomial_size,
            output.polynomial_size.0 == n,
            output.data@.len() == old(output).data@.len(),
            output.data@.len() == glwe_len,
            output.glwe_size_spec() == old(output).glwe_size_spec(),
            output.data@ =~= ks_packed(
                old(output).data@,
                *ksk,
                input.data@,
                idx as int,
                n as int,
            ),
        decreases count - idx,
    {
        proof {
            assert((idx as int + 1) * (lwe_size as int) <= (count as int) * (lwe_size as int))
                by (nonlinear_arith)
                requires
                    idx < count,
                    0 <= lwe_size,
            ;
            assert((idx as int + 1) * (lwe_size as int) == (idx as int) * (lwe_size as int)
                + lwe_size) by (nonlinear_arith);
            assert((idx as int) * (lwe_size as int) >= 0) by (nonlinear_arith)
                requires
                    0 <= idx,
                    0 <= lwe_size,
            ;
            vstd::arithmetic::div_mod::lemma_fundamental_div_mod(
                input.data@.len() as int,
                lwe_size as int,
            );
            vstd::arithmetic::mul::lemma_mul_is_commutative(
                lwe_size as int,
                count as int,
            );
            assert((count as int) * (lwe_size as int) <= input.data@.len());
        }
        let ct_base = idx * lwe_size;
        // keyswitch one LWE ciphertext into a scratch GLWE buffer
        let mut scratch: Vec<u64> = Vec::new();
        while scratch.len() < glwe_len
            invariant
                scratch@.len() <= glwe_len,
                forall|k: int| 0 <= k < scratch@.len() ==> scratch@[k] == 0u64,
            decreases glwe_len - scratch@.len(),
        {
            scratch.push(0u64);
        }
        // the body of the input goes to the constant coefficient
        let body = input.data[ct_base + input_dim];
        proof {
            assert(((glwe_size - 1) as int) * (n as int) + n == (glwe_size as int) * (n as int))
                by (nonlinear_arith)
                requires
                    glwe_size >= 1,
            ;
            assert(((glwe_size - 1) as int) * (n as int) >= 0) by (nonlinear_arith)
                requires
                    glwe_size >= 1,
                    n >= 0,
            ;
        }
        scratch[(glwe_size - 1) * n] = body;
        proof {
            assert(scratch@ =~= ks_scratch_init(body, glwe_len as int, n as int));
            assert((idx as int) * (lwe_size as int) == (idx as int) * (input_dim as int + 1));
        }
        let mut i: usize = 0;
        while i < input_dim
            invariant
                ksk.wf(),
                input.wf(),
                i <= input_dim,
                n == ksk.output_polynomial_size.0,
                glwe_size == ksk.output_glwe_size.0,
                level == ksk.decomp_level_count.0,
                base_log == ksk.decomp_base_log.0,
                input_dim == ksk.input_lwe_dimension_spec(),
                lwe_size == input_dim + 1,
                glwe_len == glwe_size * n,
                glwe_len <= 0x200_0000,
                entry == ksk.entry_size_spec(),
                scratch@.len() == glwe_len,
                ct_base == idx * lwe_size,
                ct_base + lwe_size <= input.data.len(),
                input.data@.len() == input.data.len(),
                ksk.data@.len() == ksk.data.len(),
                1 <= level,
                scratch@ =~= ks_scratch_after(
                    ksk.data@,
                    base_log as int,
                    level as int,
                    glwe_len as int,
                    n as int,
                    input.data@,
                    ct_base as int,
                    input_dim as int,
                    (i as int) * (level as int),
                ),
            decreases input_dim - i,
        {
            let a_i = input.data[ct_base + i];
            let mut j: usize = 1;
            while j <= level
                invariant
                    ksk.wf(),
                    1 <= j <= level + 1,
                    i < input_dim,
                    n == ksk.output_polynomial_size.0,
                    glwe_size == ksk.output_glwe_size.0,
                    level == ksk.decomp_level_count.0,
                    base_log == ksk.decomp_base_log.0,
                    input_dim == ksk.input_lwe_dimension_spec(),
                    glwe_len == glwe_size * n,
                    glwe_len <= 0x200_0000,
                    entry == ksk.entry_size_spec(),
                    scratch@.len() == glwe_len,
                    ksk.data@.len() == ksk.data.len(),
                    a_i == input.data@[ct_base + i],
                    ct_base + lwe_size <= input.data.len(),
                    lwe_size == input_dim + 1,
                    scratch@ =~= ks_scratch_after(
                        ksk.data@,
                        base_log as int,
                        level as int,
                        glwe_len as int,
                        n as int,
                        input.data@,
                        ct_base as int,
                        input_dim as int,
                        (i as int) * (level as int) + (j as int) - 1,
                    ),
                decreases level + 1 - j,
            {
                proof {
                    assert(1 <= (base_log as int) * (j as int)
                        && (base_log as int) * (j as int) <= 64) by (nonlinear_arith)
                        requires
                            1 <= j <= level,
                            1 <= base_log,
                            (base_log as int) * (level as int) <= 64,
                    ;
                }
                let shift = 64 - base_log * j;
                let raw = if shift == 0 {
                    a_i
                } else {
                    a_i >> (shift as u64)
                };
                proof {
                    let b = base_log as u64;
                    assert(b < 64 ==> (1u64 << b) >= 1) by (bit_vector);
                }
                let d = raw & ((1u64 << (base_log as u64)) - 1);
                // subtract d times keyswitch entry (i, j) from the scratch
                proof {
                    assert(entry == (level as int) * (glwe_len as int)) by (nonlinear_arith)
                        requires
                            entry == (level as int) * (glwe_size as int) * (n as int),
                            glwe_len == (glwe_size as int) * (n as int),
                    ;
                    lemma_row_in_bounds(
                        i as int,
                        j as int,
                        level as int,
                        glwe_len as int,
                        input_dim as int,
                        entry,
                        ksk.data@.len() as int,
                    );
                }
                let row = (i * level + (j - 1)) * glwe_len;
                let ghost pre = scratch@;
                scalar_mul_sub(&mut scratch, 0, d, &ksk.data, row, glwe_len);
                proof {
                    let steps = (i as int) * (level as int) + (j as int) - 1;
                    vstd::arithmetic::div_mod::lemma_fundamental_div_mod_converse(
                        steps,
                        level as int,
                        i as int,
                        (j as int) - 1,
                    );
                    assert forall|k: int| 0 <= k < glwe_len implies scratch@[k]
                        == ks_scratch_after(
                        ksk.data@,
                        base_log as int,
                        level as int,
                        glwe_len as int,
                        n as int,
                        input.data@,
                        ct_base as int,
                        input_dim as int,
                        steps + 1,
                    )[k] by {
                        assert(scratch@[0 + k] == pre[k].wrapping_sub(d.wrapping_mul(
                            ksk.data@[row + k],
                        )));
                    }
                    assert(scratch@ =~= ks_scratch_after(
                        ksk.data@,
                        base_log as int,
                        level as int,
                        glwe_len as int,
                        n as int,
                        input.data@,
                        ct_base as int,
                        input_dim as int,
                        steps + 1,
                    ));
                }
                j += 1;
            }
            proof {
                assert((i as int + 1) * (level as int) == (i as int) * (level as int) + level)
                    by (nonlinear_arith);
            }
            i += 1;
        }
        // multiply by the monomial of degree idx and accumulate
        let ghost out_before = output.data@;
        let ghost scratch_final = scratch@;
        proof {
            assert(scratch_final =~= ks_keyswitched(*ksk, input.data@, idx as int));
        }
        let mut p: usize = 0;
        while p < glwe_size
            invariant
                p <= glwe_size,
                n >= 1,
                n <= 0x10_0000,
                idx < count,
                count <= n,
                glwe_len == glwe_size * n,
                glwe_len <= 0x200_0000,
                scratch@.len() == glwe_len,
                scratch@ =~= scratch_final,
                out_before.len() == glwe_len,
                output.wf(),
                output.polynomial_size == old(output).polynomial_size,
                output.polynomial_size.0 == n,
                output.data@.len() == old(output).data@.len(),
                output.data@.len() == glwe_len,
                output.glwe_size_spec() == old(output).glwe_size_spec(),
                forall|k: int|
                    0 <= k < glwe_len ==> #[trigger] output.data@[k] == (if k / (n as int) < p {
                        ks_placed(out_before, scratch_final, idx as int, n as int)[k]
                    } else {
                        out_before[k]
                    }),
            decreases glwe_size - p,
        {
            proof {
                assert((p as int + 1) * (n as int) <= (glwe_size as int) * (n as int))
                    by (nonlinear_arith)
                    requires
                        p < glwe_size,
                        0 <= n,
                ;
                assert((p as int + 1) * (n as int) == (p as int) * (n as int) + n)
                    by (nonlinear_arith);
                assert((p as int) * (n as int) >= 0) by (nonlinear_arith)
                    requires
                        0 <= p,
                        0 <= n,
                ;
            }
            let ghost out_pre_row = output.data@;
            monomial_mul_acc(&mut output.data, p * n, &scratch, p * n, idx, n);
            proof {
                assert forall|k: int| 0 <= k < glwe_len implies #[trigger] output.data@[k] == (
                if k / (n as int) < p + 1 {
                    ks_placed(out_before, scratch_final, idx as int, n as int)[k]
                } else {
                    out_before[k]
                }) by {
                    vstd::arithmetic::div_mod::lemma_fundamental_div_mod(k, n as int);
                    vstd::arithmetic::div_mod::lemma_mod_bound(k, n as int);
                    vstd::arithmetic::div_mod::lemma_div_is_ordered(0, k, n as int);
                    vstd::arithmetic::mul::lemma_mul_is_commutative(n as int, k / (n as int));
                    let q = k / (n as int);
                    if q < p {
                        vstd::arithmetic::mul::lemma_mul_inequality(q + 1, p as int, n as int);
                        assert((q + 1) * (n as int) == q * (n as int) + n) by (nonlinear_arith);
                        assert(k < (p as int) * (n as int));
                        assert(output.data@[k] == out_pre_row[k]);
                    } else if q == p {
                        let j0 = k % (n as int);
                        assert(k == (p as int) * (n as int) + j0);
                        assert(output.data@[(p as int) * (n as int) + j0] == (
                        if crate::polynomial::monomial_sign_flips(j0, idx as int, n as int) {
                            out_pre_row[(p as int) * (n as int)
                                + j0].wrapping_sub(scratch@[(p as int) * (n as int)
                                + crate::polynomial::monomial_source_index(
                                j0,
                                idx as int,
                                n as int,
                            )])
                        } else {
                            out_pre_row[(p as int) * (n as int)
                                + j0].wrapping_add(scratch@[(p as int) * (n as int)
                                + crate::polynomial::monomial_source_index(
                                j0,
                                idx as int,
                                n as int,
                            )])
                        }));
                    } else {
                        vstd::arithmetic::mul::lemma_mul_inequality(p as int + 1, q, n as int);
                        assert((p as int + 1) * (n as int) == (p as int) * (n as int) + n)
                            by (nonlinear_arith);
                        assert(k >= (p as int) * (n as int) + n);
                        assert(output.data@[k] == out_pre_row[k]);
                    }
                }
            }
            p += 1;
        }
        proof {
            assert forall|k: int| 0 <= k < glwe_len implies output.data@[k] == ks_placed(
                out_before,
                scratch_final,
                idx as int,
                n as int,
            )[k] by {
                vstd::arithmetic::div_mod::lemma_div_is_ordered(k, glwe_len as int - 1, n as int);
                vstd::arithmetic::mul::lemma_mul_is_commutative(n as int, glwe_size as int);
                vstd::arithmetic::div_mod::lemma_multiply_divide_lt(
                    k,
                    n as int,
                    glwe_size as int,
                );
            }
            assert(output.data@ =~= ks_placed(out_before, scratch_final, idx as int, n as int));
            assert(output.data@ =~= ks_packed(
                old(output).data@,
                *ksk,
                input.data@,
                idx as int + 1,
                n as int,
            ));
        }
        idx += 1;
    }
}

/// Keyswitch entry `(i, j)` lies inside the key data.
proof fn lemma_row_in_bounds(
    i: int,
    j: int,
    level: int,
    glwe_len: int,
    input_dim: int,
    entry: int,
    data_len: int,
)
    by (nonlinear_arith)
    requires
        0 <= i < input_dim,
        1 <= j <= level,
        1 <= level <= 16,
        input_dim <= 0x10_0000,
        0 <= glwe_len,
        entry == level * glwe_len,
        data_len == input_dim * entry,
    ensures
        0 <= (i * level + (j - 1)) * glwe_len,
        (i * level + (j - 1)) * glwe_len + glwe_len <= data_len,
        i * level + (j - 1) < 0x100_0000,
{
}

} // verus!
