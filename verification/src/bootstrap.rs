//! Programmable bootstrapping: bootstrap key generation, the carry
//! extraction lookup table, blind rotation and sample extraction.
//!
//! A bootstrap evaluates a lookup table on the encrypted input while
//! refreshing its noise: the input ciphertext is modulus switched down to
//! twice the accumulator's polynomial size, the accumulator is blindly
//! rotated by the encrypted amount, and the constant coefficient of the
//! result is extracted as a fresh LWE ciphertext.

use vstd::prelude::*;

use crate::compressed_glwe::switched_coefficient;
use crate::entities::{encrypt_glwe, encrypted_glwe_data, GlweCiphertext, GlweSecretKey, LweCiphertext, LweSecretKey};
use crate::parameters::{
    CiphertextModulus, CiphertextModulusLog, DecompositionBaseLog, DecompositionLevelCount,
    Degree, DynamicDistribution, GlweSize, LweDimension, MessageModulus, CarryModulus,
    PolynomialSize,
};
use crate::polynomial::{monomial_mul_acc, poly_mul_acc};
use crate::random::RandomSource;

verus! {

/// Fills a fresh vector with `len` zeros.
pub fn zero_vec(len: usize) -> (r: Vec<u64>)
    ensures
        r@.len() == len,
        forall|k: int| 0 <= k < r@.len() ==> r@[k] == 0u64,
{
    let mut data: Vec<u64> = Vec::new();
    while data.len() < len
        invariant
            data@.len() <= len,
            forall|k: int| 0 <= k < data@.len() ==> data@[k] == 0u64,
        decreases len - data@.len(),
    {
        data.push(0u64);
    }
    data
}

/// A bootstrap (blind rotation) key: one GGSW ciphertext per input key
/// element, each holding `level * glwe_size` GLWE rows, stored flat.
pub struct LweBootstrapKey {
    pub data: Vec<u64>,
    pub glwe_size: GlweSize,
    pub polynomial_size: PolynomialSize,
    pub decomp_base_log: DecompositionBaseLog,
    pub decomp_level_count: DecompositionLevelCount,
    pub ciphertext_modulus: CiphertextModulus,
}

impl LweBootstrapKey {
    /// Words of one GGSW ciphertext.
    pub open spec fn ggsw_size_spec(&self) -> int {
        (self.decomp_level_count.0 as int) * (self.glwe_size.0 as int) * (self.glwe_size.0 as int)
            * (self.polynomial_size.0 as int)
    }

    pub open spec fn wf(&self) -> bool {
        &&& 1 <= self.decomp_base_log.0 <= 63
        &&& 1 <= self.decomp_level_count.0 <= 8
        &&& (self.decomp_base_log.0 as int) * (self.decomp_level_count.0 as int) <= 64
        &&& 2 <= self.glwe_size.0 <= 8
        &&& 1 <= self.polynomial_size.0 <= 0x10_0000
        &&& self.data@.len() == self.input_lwe_dimension_spec() * self.ggsw_size_spec()
        &&& self.input_lwe_dimension_spec() <= 0x10_0000
    }

    pub open spec fn input_lwe_dimension_spec(&self) -> int {
        (self.data@.len() as int) / self.ggsw_size_spec()
    }

    pub fn glwe_size(&self) -> (r: GlweSize)
        ensures
            r == self.glwe_size,
    {
        self.glwe_size
    }

    pub fn polynomial_size(&self) -> (r: PolynomialSize)
        ensures
            r == self.polynomial_size,
    {
        self.polynomial_size
    }

    pub fn input_lwe_dimension(&self) -> (r: LweDimension)
        requires
            self.wf(),
        ensures
            r.0 == self.input_lwe_dimension_spec(),
    {
        proof {
            lemma_ggsw_size_bounds(
                self.decomp_level_count.0 as int,
                self.glwe_size.0 as int,
                self.polynomial_size.0 as int,
            );
            vstd::arithmetic::div_mod::lemma_fundamental_div_mod_converse(
                self.data@.len() as int,
                self.ggsw_size_spec(),
                self.input_lwe_dimension_spec(),
                0,
            );
        }
        let ggsw = self.decomp_level_count.0 * self.glwe_size.0 * self.glwe_size.0
            * self.polynomial_size.0;
        LweDimension(self.data.len() / ggsw)
    }

    /// Dimension of the LWE ciphertexts a bootstrap with this key returns.
    pub fn output_lwe_dimension(&self) -> (r: LweDimension)
        requires
            self.wf(),
        ensures
            r.0 == (self.glwe_size.0 - 1) * self.polynomial_size.0,
    {
        proof {
            lemma_ggsw_size_bounds(
                self.decomp_level_count.0 as int,
                self.glwe_size.0 as int,
                self.polynomial_size.0 as int,
            );
        }
        LweDimension((self.glwe_size.0 - 1) * self.polynomial_size.0)
    }
}

/// Size bounds for the GGSW layout arithmetic.
proof fn lemma_ggsw_size_bounds(level: int, glwe_size: int, poly: int)
    by (nonlinear_arith)
    requires
        1 <= level <= 8,
        2 <= glwe_size <= 8,
        1 <= poly <= 0x10_0000,
    ensures
        1 <= level * glwe_size * glwe_size * poly,
        level * glwe_size * glwe_size * poly <= 0x2000_0000,
        level * glwe_size * glwe_size <= 0x200,
        glwe_size * poly <= 0x80_0000,
        level * glwe_size <= 0x40,
        (glwe_size - 1) * poly <= 0x80_0000,
        0 <= (glwe_size - 1) * poly,
{
}

/// The bootstrapping key of the engine; only the classic (non multi-bit)
/// variant exists here.
pub enum ShortintBootstrappingKey {
    Classic(LweBootstrapKey),
}

impl ShortintBootstrappingKey {
    pub open spec fn wf(&self) -> bool {
        match self {
            ShortintBootstrappingKey::Classic(key) => key.wf(),
        }
    }

    pub open spec fn key_spec(&self) -> &LweBootstrapKey {
        match self {
            ShortintBootstrappingKey::Classic(key) => key,
        }
    }

    pub fn glwe_size(&self) -> (r: GlweSize)
        ensures
            r == self.key_spec().glwe_size,
    {
        match self {
            ShortintBootstrappingKey::Classic(key) => key.glwe_size(),
        }
    }

    pub fn polynomial_size(&self) -> (r: PolynomialSize)
        ensures
            r == self.key_spec().polynomial_size,
    {
        match self {
            ShortintBootstrappingKey::Classic(key) => key.polynomial_size(),
        }
    }

    pub fn input_lwe_dimension(&self) -> (r: LweDimension)
        requires
            self.wf(),
        ensures
            r.0 == self.key_spec().input_lwe_dimension_spec(),
    {
        match self {
            ShortintBootstrappingKey::Classic(key) => key.input_lwe_dimension(),
        }
    }

    pub fn output_lwe_dimension(&self) -> (r: LweDimension)
        requires
            self.wf(),
        ensures
            r.0 == (self.key_spec().glwe_size.0 - 1) * self.key_spec().polynomial_size.0,
    {
        match self {
            ShortintBootstrappingKey::Classic(key) => key.output_lwe_dimension(),
        }
    }
}

/// Generates a bootstrap key from `input_lwe_sk` to `output_glwe_sk`:
/// GGSW ciphertext `i` encrypts input key bit `i`, row `(j, p)` holding,
/// at gadget level `j`, the bit times the negated output key polynomial
/// `p` (or the bit itself for the body row).
/// The message polynomial of one bootstrap key row for key bit `s_i` at
/// decomposition level `j`: a mask row `p` holds minus the bit times the
/// `p`-th key polynomial, scaled to the top `base_log * j` bits; the body
/// row holds the scaled bit itself in slot zero.
pub open spec fn bsk_row_message(
    s_i: u64,
    key: Seq<u64>,
    base_log: int,
    j: int,
    p: int,
    glwe_size: int,
    n: int,
) -> Seq<u64> {
    if p + 1 < glwe_size {
        Seq::new(
            n as nat,
            |t: int|
                0u64.wrapping_sub(
                    s_i.wrapping_mul(key[p * n + t]) << ((64 - base_log * j) as u64),
                ),
        )
    } else {
        Seq::new(
            n as nat,
            |t: int| if t == 0 {
                s_i << ((64 - base_log * j) as u64)
            } else {
                0u64
            },
        )
    }
}

/// One GLWE-sized row of a generated bootstrap key, as a slice of its
/// data.
pub open spec fn bsk_row(data: Seq<u64>, g: int, row_len: int) -> Seq<u64> {
    data.subrange(g * row_len, g * row_len + row_len)
}

/// What the generator writes as row `g` of a bootstrap key from `in_key`
/// to `out_key`, drawing from stream position `first`: a fresh GLWE
/// encryption of the row message for key bit `g / (level * glwe_size)`,
/// level `(g / glwe_size) % level + 1` and row `g % glwe_size`.
pub open spec fn bsk_generated_row(
    in_key: Seq<u64>,
    out_key: Seq<u64>,
    base_log: int,
    level: int,
    glwe_size: int,
    n: int,
    seed: u128,
    first: int,
    bound_log2: int,
    g: int,
) -> Seq<u64> {
    encrypted_glwe_data(
        out_key,
        bsk_row_message(
            in_key[g / (level * glwe_size)],
            out_key,
            base_log,
            (g / glwe_size) % level + 1,
            g % glwe_size,
            glwe_size,
            n,
        ),
        seed,
        first + g * (glwe_size * n),
        bound_log2,
        glwe_size - 1,
        n,
    )
}

pub fn allocate_and_generate_new_lwe_bootstrap_key(
    input_lwe_sk: &LweSecretKey,
    output_glwe_sk: &GlweSecretKey,
    decomp_base_log: DecompositionBaseLog,
    decomp_level_count: DecompositionLevelCount,
    noise_distribution: DynamicDistribution,
    ciphertext_modulus: CiphertextModulus,
    source: &mut RandomSource,
) -> (r: LweBootstrapKey)
    requires
        input_lwe_sk.wf(),
        output_glwe_sk.wf(),
        1 <= decomp_base_log.0 <= 63,
        1 <= decomp_level_count.0 <= 8,
        (decomp_base_log.0 as int) * (decomp_level_count.0 as int) <= 64,
        1 <= output_glwe_sk.polynomial_size.0 <= 0x10_0000,
        1 <= output_glwe_sk.glwe_dimension_spec(),
        output_glwe_sk.glwe_dimension_spec() + 1 <= 8,
        input_lwe_sk.lwe_dimension_spec() <= 0x10_0000,
        noise_distribution.bound_log2 < 63,
    ensures
        r.wf(),
        r.decomp_base_log == decomp_base_log,
        r.decomp_level_count == decomp_level_count,
        r.polynomial_size == output_glwe_sk.polynomial_size,
        r.glwe_size.0 == output_glwe_sk.glwe_dimension_spec() + 1,
        r.input_lwe_dimension_spec() == input_lwe_sk.lwe_dimension_spec(),
        final(source).seed_spec() == old(source).seed_spec(),
        final(source).drawn_spec() == old(source).drawn_spec() + ((
        input_lwe_sk.lwe_dimension_spec() * decomp_level_count.0) * (
        output_glwe_sk.glwe_dimension_spec() + 1)) * ((output_glwe_sk.glwe_dimension_spec() + 1)
            * output_glwe_sk.polynomial_size.0),
        forall|g: int|
            0 <= g < (input_lwe_sk.lwe_dimension_spec() * decomp_level_count.0) * (
            output_glwe_sk.glwe_dimension_spec() + 1) ==> #[trigger] bsk_row(
                r.data@,
                g,
                (output_glwe_sk.glwe_dimension_spec() + 1) * output_glwe_sk.polynomial_size.0,
            ) == bsk_generated_row(
                input_lwe_sk.data@,
                output_glwe_sk.data@,
                decomp_base_log.0 as int,
                decomp_level_count.0 as int,
                output_glwe_sk.glwe_dimension_spec() + 1,
                output_glwe_sk.polynomial_size.0 as int,
                old(source).seed_spec(),
                old(source).drawn_spec(),
                noise_distribution.bound_log2 as int,
                g,
            ),
{
    let n = output_glwe_sk.polynomial_size.0;
    let glwe_size = output_glwe_sk.glwe_dimension().0 + 1;
    let input_dim = input_lwe_sk.data.len();
    let level = decomp_level_count.0;
    let base_log = decomp_base_log.0;
    let ghost ggsw = (level as int) * (glwe_size as int) * (glwe_size as int) * (n as int);
    let ghost rsz = (glwe_size as int) * (n as int);
    let ghost seed0 = old(source).seed_spec();
    let ghost drawn0 = old(source).drawn_spec();
    let ghost dim = output_glwe_sk.glwe_dimension_spec();
    proof {
        lemma_ggsw_size_bounds(level as int, glwe_size as int, n as int);
        assert((0int * (level as int)) * (glwe_size as int) == 0 && 0int * ggsw == 0)
            by (nonlinear_arith);
        assert((glwe_size as int) * (n as int) <= usize::MAX) by (nonlinear_arith)
            requires
                2 <= glwe_size <= 8,
                1 <= n <= 0x10_0000,
        ;
    }
    proof {
        vstd::arithmetic::div_mod::lemma_fundamental_div_mod(
            output_glwe_sk.data@.len() as int,
            n as int,
        );
        vstd::arithmetic::mul::lemma_mul_is_commutative(
            n as int,
            output_glwe_sk.glwe_dimension_spec(),
        );
    }
    let mut data: Vec<u64> = Vec::new();
    let mut i: usize = 0;
    while i < input_dim
        invariant
            input_lwe_sk.wf(),
            output_glwe_sk.wf(),
            i <= input_dim,
            input_dim == input_lwe_sk.data.len(),
            n == output_glwe_sk.polynomial_size.0,
            glwe_size == output_glwe_sk.glwe_dimension_spec() + 1,
            output_glwe_sk.data@.len() == (glwe_size as int - 1) * (n as int),
            (glwe_size as int) * (n as int) <= usize::MAX,
            1 <= base_log <= 63,
            1 <= level <= 8,
            (base_log as int) * (level as int) <= 64,
            base_log == decomp_base_log.0,
            level == decomp_level_count.0,
            noise_distribution.bound_log2 < 63,
            1 <= n <= 0x10_0000,
            2 <= glwe_size <= 8,
            input_dim <= 0x10_0000,
            ggsw == (level as int) * (glwe_size as int) * (glwe_size as int) * (n as int),
            rsz == (glwe_size as int) * (n as int),
            dim == output_glwe_sk.glwe_dimension_spec(),
            glwe_size == dim + 1,
            data@.len() == i * ggsw,
            source.seed_spec() == seed0,
            source.drawn_spec() == drawn0 + ((i as int * level as int) * (glwe_size as int))
                * rsz,
            forall|g: int|
                0 <= g < (i as int * level as int) * (glwe_size as int) ==> #[trigger] bsk_row(data@, g, rsz) == bsk_generated_row(
                    input_lwe_sk.data@,
                    output_glwe_sk.data@,
                    base_log as int,
                    level as int,
                    glwe_size as int,
                    n as int,
                    seed0,
                    drawn0,
                    noise_distribution.bound_log2 as int,
                    g,
                ),
        decreases input_dim - i,
    {
        let s_i = input_lwe_sk.data[i];
        let mut j: usize = 1;
        while j <= level
            invariant
                input_lwe_sk.wf(),
                output_glwe_sk.wf(),
                1 <= j <= level + 1,
                i < input_dim,
                input_dim == input_lwe_sk.data.len(),
                n == output_glwe_sk.polynomial_size.0,
                glwe_size == output_glwe_sk.glwe_dimension_spec() + 1,
                output_glwe_sk.data@.len() == (glwe_size as int - 1) * (n as int),
                (glwe_size as int) * (n as int) <= usize::MAX,
                1 <= base_log <= 63,
                1 <= level <= 8,
                (base_log as int) * (level as int) <= 64,
                noise_distribution.bound_log2 < 63,
                1 <= n <= 0x10_0000,
                2 <= glwe_size <= 8,
                input_dim <= 0x10_0000,
                ggsw == (level as int) * (glwe_size as int) * (glwe_size as int) * (n as int),
                rsz == (glwe_size as int) * (n as int),
                dim == output_glwe_sk.glwe_dimension_spec(),
                glwe_size == dim + 1,
                base_log == decomp_base_log.0,
                level == decomp_level_count.0,
                s_i == input_lwe_sk.data@[i as int],
                s_i == 0 || s_i == 1,
                data@.len() == i * ggsw + (j - 1) * ((glwe_size as int) * (glwe_size as int) * (
                n as int)),
                source.seed_spec() == seed0,
                source.drawn_spec() == drawn0 + ((i as int * level as int + (j - 1)) * (
                glwe_size as int)) * rsz,
            forall|g: int|
                0 <= g < (i as int * level as int + (j - 1)) * (glwe_size as int) ==> #[trigger] bsk_row(data@, g, rsz) == bsk_generated_row(
                    input_lwe_sk.data@,
                    output_glwe_sk.data@,
                    base_log as int,
                    level as int,
                    glwe_size as int,
                    n as int,
                    seed0,
                    drawn0,
                    noise_distribution.bound_log2 as int,
                    g,
                ),
            decreases level + 1 - j,
        {
            proof {
                assert(1 <= (base_log as int) * (j as int) && (base_log as int) * (j as int)
                    <= 64) by (nonlinear_arith)
                    requires
                        1 <= j <= level,
                        1 <= base_log,
                        (base_log as int) * (level as int) <= 64,
                ;
            }
            let shift = 64 - base_log * j;
            let mut p: usize = 0;
            while p < glwe_size
                invariant
                    input_lwe_sk.wf(),
                    output_glwe_sk.wf(),
                    p <= glwe_size,
                    1 <= j <= level,
                    1 <= level <= 8,
                    i < input_dim,
                    n == output_glwe_sk.polynomial_size.0,
                    glwe_size == output_glwe_sk.glwe_dimension_spec() + 1,
                    output_glwe_sk.data@.len() == (glwe_size as int - 1) * (n as int),
                    (glwe_size as int) * (n as int) <= usize::MAX,
                    shift <= 63,
                    shift == 64 - (base_log as int) * (j as int),
                    noise_distribution.bound_log2 < 63,
                    1 <= n <= 0x10_0000,
                    2 <= glwe_size <= 8,
                    input_dim == input_lwe_sk.data.len(),
                    base_log == decomp_base_log.0,
                    level == decomp_level_count.0,
                    s_i == input_lwe_sk.data@[i as int],
                    s_i == 0 || s_i == 1,
                    data@.len() == i * ggsw + (j - 1) * ((glwe_size as int) * (glwe_size as int)
                        * (n as int)) + p * ((glwe_size as int) * (n as int)),
                    ggsw == (level as int) * (glwe_size as int) * (glwe_size as int) * (n as int),
                    rsz == (glwe_size as int) * (n as int),
                    dim == output_glwe_sk.glwe_dimension_spec(),
                    glwe_size == dim + 1,
                    source.seed_spec() == seed0,
                    source.drawn_spec() == drawn0 + ((i as int * level as int + (j - 1)) * (
                    glwe_size as int) + p) * rsz,
            forall|g: int|
                0 <= g < (i as int * level as int + (j - 1)) * (glwe_size as int) + p ==> #[trigger] bsk_row(data@, g, rsz) == bsk_generated_row(
                    input_lwe_sk.data@,
                    output_glwe_sk.data@,
                    base_log as int,
                    level as int,
                    glwe_size as int,
                    n as int,
                    seed0,
                    drawn0,
                    noise_distribution.bound_log2 as int,
                    g,
                ),
                decreases glwe_size - p,
            {
                let mut message: Vec<u64> = zero_vec(n);
                if p + 1 < glwe_size {
                    // mask row: minus the key polynomial, scaled
                    proof {
                        assert((p as int + 1) * (n as int) <= (glwe_size as int - 1) * (n as int)
                            && (p as int) * (n as int) >= 0 && (p as int + 1) * (n as int) == (
                        p as int) * (n as int) + n) by (nonlinear_arith)
                            requires
                                0 <= p,
                                p + 1 < glwe_size,
                                1 <= n,
                        ;
                        assert((glwe_size as int - 1) * (n as int) <= output_glwe_sk.data@.len())
                            by (nonlinear_arith)
                            requires
                                output_glwe_sk.data@.len() == (glwe_size as int - 1) * (n as int),
                        ;
                    }
                    let mut t: usize = 0;
                    while t < n
                        invariant
                            output_glwe_sk.wf(),
                            t <= n,
                            message@.len() == n,
                            shift <= 63,
                            shift == 64 - (base_log as int) * (j as int),
                            s_i == 0 || s_i == 1,
                            (p as int) * (n as int) + n <= output_glwe_sk.data.len(),
                            (p as int) * (n as int) >= 0,
                            forall|u: int|
                                0 <= u < t ==> #[trigger] message@[u] == 0u64.wrapping_sub(
                                    s_i.wrapping_mul(
                                        output_glwe_sk.data@[p as int * (n as int) + u],
                                    ) << ((64 - (base_log as int) * (j as int)) as u64),
                                ),
                        decreases n - t,
                    {
                        let key_coeff = output_glwe_sk.data[p * n + t];
                        let value = 0u64.wrapping_sub(s_i.wrapping_mul(key_coeff) << (shift as u64));
                        message[t] = value;
                        t += 1;
                    }
                    proof {
                        assert(message@ =~= bsk_row_message(
                            s_i,
                            output_glwe_sk.data@,
                            base_log as int,
                            j as int,
                            p as int,
                            glwe_size as int,
                            n as int,
                        ));
                    }
                } else {
                    // body row: the key bit itself, scaled
                    message[0] = s_i << (shift as u64);
                    proof {
                        assert(message@ =~= bsk_row_message(
                            s_i,
                            output_glwe_sk.data@,
                            base_log as int,
                            j as int,
                            p as int,
                            glwe_size as int,
                            n as int,
                        ));
                    }
                }
                let ghost g0 = (i as int * level as int + (j - 1)) * (glwe_size as int)
                    + p as int;
                let ghost data_before = data@;
                let ghost drawn_before = source.drawn_spec();
                let glwe = encrypt_glwe(
                    output_glwe_sk,
                    &message,
                    noise_distribution.bound_log2,
                    source,
                );
                let mut glwe_data = glwe.data;
                proof {
                    lemma_bsk_append_shape(
                        i as int,
                        j as int,
                        p as int,
                        level as int,
                        glwe_size as int,
                        n as int,
                        ggsw,
                    );
                    assert(data_before.len() == g0 * rsz) by (nonlinear_arith)
                        requires
                            data_before.len() == i as int * ggsw + (j - 1) * ((glwe_size as int)
                                * (glwe_size as int) * (n as int)) + p as int * ((
                            glwe_size as int) * (n as int)),
                            ggsw == (level as int) * (glwe_size as int) * (glwe_size as int) * (
                            n as int),
                            rsz == (glwe_size as int) * (n as int),
                            g0 == (i as int * level as int + (j - 1)) * (glwe_size as int)
                                + p as int,
                    ;
                    assert((g0 + 1) * rsz == g0 * rsz + rsz) by (nonlinear_arith);
                }
                data.append(&mut glwe_data);
                proof {
                    assert(glwe.data@.len() == rsz);
                    assert forall|g: int| 0 <= g < g0 + 1 implies #[trigger] bsk_row(
                        data@,
                        g,
                        rsz,
                    ) == bsk_generated_row(
                        input_lwe_sk.data@,
                        output_glwe_sk.data@,
                        base_log as int,
                        level as int,
                        glwe_size as int,
                        n as int,
                        seed0,
                        drawn0,
                        noise_distribution.bound_log2 as int,
                        g,
                    ) by {
                        if g < g0 {
                            assert((g + 1) * rsz <= g0 * rsz && 0 <= g * rsz && g * rsz + rsz
                                == (g + 1) * rsz) by (nonlinear_arith)
                                requires
                                    0 <= g < g0,
                                    0 <= rsz,
                            ;
                            assert(bsk_row(data@, g, rsz) =~= bsk_row(data_before, g, rsz));
                        } else {
                            assert(0 <= (j - 1) * (glwe_size as int) + p as int
                                && ((j - 1) * (glwe_size as int) + p as int) < (level as int) * (
                            glwe_size as int) && g0 == i as int * ((level as int) * (
                            glwe_size as int)) + ((j - 1) * (glwe_size as int) + p as int))
                                by (nonlinear_arith)
                                requires
                                    1 <= j <= level,
                                    0 <= p < glwe_size,
                                    0 <= i,
                                    g0 == (i as int * level as int + (j - 1)) * (glwe_size as int)
                                        + p as int,
                            ;
                            vstd::arithmetic::div_mod::lemma_fundamental_div_mod_converse(
                                g0,
                                (level as int) * (glwe_size as int),
                                i as int,
                                (j - 1) * (glwe_size as int) + p as int,
                            );
                            vstd::arithmetic::div_mod::lemma_fundamental_div_mod_converse(
                                g0,
                                glwe_size as int,
                                i as int * level as int + (j - 1),
                                p as int,
                            );
                            vstd::arithmetic::div_mod::lemma_fundamental_div_mod_converse(
                                i as int * level as int + (j - 1),
                                level as int,
                                i as int,
                                (j - 1) as int,
                            );
                            assert(bsk_row(data@, g0, rsz) =~= glwe.data@);
                            assert(drawn_before == drawn0 + g0 * (glwe_size as int * (n as int)));
                        }
                    }
                    assert(source.drawn_spec() == drawn0 + ((i as int * level as int + (j - 1))
                        * (glwe_size as int) + (p + 1)) * rsz) by (nonlinear_arith)
                        requires
                            source.drawn_spec() == drawn_before + dim * (n as int) + n,
                            drawn_before == drawn0 + g0 * rsz,
                            g0 == (i as int * level as int + (j - 1)) * (glwe_size as int)
                                + p as int,
                            rsz == (glwe_size as int) * (n as int),
                            glwe_size == dim + 1,
                    ;
                }
                p += 1;
            }
            proof {
                lemma_bsk_append_shape(
                    i as int,
                    j as int,
                    glwe_size as int - 1,
                    level as int,
                    glwe_size as int,
                    n as int,
                    ggsw,
                );
                assert((i as int * level as int + (j - 1)) * (glwe_size as int) + glwe_size
                    == (i as int * level as int + j) * (glwe_size as int)) by (nonlinear_arith);
                assert(((i as int * level as int + (j - 1)) * (glwe_size as int) + glwe_size)
                    * rsz == ((i as int * level as int + j) * (glwe_size as int)) * rsz)
                    by (nonlinear_arith)
                    requires
                        (i as int * level as int + (j - 1)) * (glwe_size as int) + glwe_size
                            == (i as int * level as int + j) * (glwe_size as int),
                ;
            }
            j += 1;
        }
        proof {
            lemma_bsk_append_shape(
                i as int,
                level as int,
                0,
                level as int,
                glwe_size as int,
                n as int,
                ggsw,
            );
            assert((i as int * level as int + level) * (glwe_size as int) == ((i as int + 1)
                * (level as int)) * (glwe_size as int)) by (nonlinear_arith);
            assert(((i as int * level as int + level) * (glwe_size as int)) * rsz == (((
            i as int + 1) * (level as int)) * (glwe_size as int)) * rsz) by (nonlinear_arith)
                requires
                    (i as int * level as int + level) * (glwe_size as int) == ((i as int + 1)
                        * (level as int)) * (glwe_size as int),
            ;
        }
        i += 1;
    }
    proof {
        lemma_ggsw_size_bounds(level as int, glwe_size as int, n as int);
        vstd::arithmetic::div_mod::lemma_fundamental_div_mod_converse(
            data@.len() as int,
            ggsw,
            input_dim as int,
            0,
        );
    }
    LweBootstrapKey {
        data,
        glwe_size: GlweSize(glwe_size),
        polynomial_size: output_glwe_sk.polynomial_size,
        decomp_base_log,
        decomp_level_count,
        ciphertext_modulus,
    }
}

/// Bookkeeping for one appended row of a bootstrap key.
proof fn lemma_bsk_append_shape(
    i: int,
    j: int,
    p: int,
    level: int,
    glwe_size: int,
    n: int,
    ggsw: int,
)
    by (nonlinear_arith)
    requires
        0 <= i,
        1 <= j <= level,
        0 <= p < glwe_size,
        1 <= level <= 8,
        2 <= glwe_size <= 8,
        1 <= n <= 0x10_0000,
        ggsw == level * glwe_size * glwe_size * n,
    ensures
        (p + 1) * (glwe_size * n) == p * (glwe_size * n) + glwe_size * n,
        0 <= p * (glwe_size * n),
        glwe_size * (glwe_size * n) == glwe_size * glwe_size * n,
        j * (glwe_size * glwe_size * n) == (j - 1) * (glwe_size * glwe_size * n) + glwe_size
            * glwe_size * n,
        level * (glwe_size * glwe_size * n) == ggsw,
        (i + 1) * ggsw == i * ggsw + ggsw,
        0 <= i * ggsw,
        0 <= (j - 1) * (glwe_size * glwe_size * n),
        (j - 1) * (glwe_size * glwe_size * n) + glwe_size * glwe_size * n <= ggsw,
        p * (glwe_size * n) + glwe_size * n <= glwe_size * glwe_size * n,
{
}

/// A lookup table ready for a programmable bootstrap: a trivial GLWE
/// accumulator holding the table, and the largest value the table returns
/// on valid inputs.
pub struct GlweLookupTable {
    pub acc: GlweCiphertext,
    pub degree: Degree,
}

impl GlweLookupTable {
    pub open spec fn wf(&self) -> bool {
        self.acc.wf()
    }
}

/// The carry extraction function the decompression bootstrap evaluates:
/// it divides out the message modulus that was multiplied in at pack time.
pub fn carry_extraction_lut_fn(x: u64, message_modulus: MessageModulus) -> (r: u64)
    requires
        message_modulus.0 >= 1,
    ensures
        r == x / (message_modulus.0 as u64),
{
    x / (message_modulus.0 as u64)
}

/// Scale invariance of the carry extraction table: for a fixed message
/// modulus, dividing by it undoes exactly the multiplication by it that
/// packing applied, for every payload value.
pub proof fn lemma_carry_extraction_scale_invariance(m: int, message_modulus: int)
    requires
        1 <= message_modulus,
        0 <= m,
    ensures
        (m * message_modulus) / message_modulus == m,
{
    vstd::arithmetic::div_mod::lemma_fundamental_div_mod_converse(
        m * message_modulus,
        message_modulus,
        m,
        0,
    );
}

/// The unrotated table value at position `pos`: the carry extraction
/// function applied to the box index, scaled by the plaintext encoding.
pub open spec fn carry_lut_entry(pos: int, box_size: int, message_modulus: int, delta: u64)
    -> u64 {
    ((((pos / box_size) / message_modulus)) as u64).wrapping_mul(delta)
}

/// Coefficient `j` of the generated accumulator body: the table entry
/// half a box ahead, with the sign flipped where the lookup wraps past
/// the end of the polynomial.
pub open spec fn carry_lut_coeff(j: int, n: int, box_size: int, message_modulus: int, delta: u64)
    -> u64 {
    let pos = j + box_size / 2;
    if pos < n {
        carry_lut_entry(pos, box_size, message_modulus, delta)
    } else {
        0u64.wrapping_sub(carry_lut_entry(pos - n, box_size, message_modulus, delta))
    }
}

/// The whole body polynomial of the carry extraction table for a given
/// polynomial size and plaintext space.
pub open spec fn carry_extraction_table(n: int, message_modulus: int, carry_modulus: int)
    -> Seq<u64> {
    let box_size = n / (message_modulus * carry_modulus);
    let delta = (1u64 << 63) / ((message_modulus * carry_modulus) as u64);
    Seq::new(n as nat, |j: int| carry_lut_coeff(j, n, box_size, message_modulus, delta))
}

/// Carried into the table: every coefficient whose box index is a
/// payload scaled by the message modulus holds exactly that payload,
/// scaled by the plaintext encoding — the table inverts the pack-time
/// scaling.
pub proof fn lemma_carry_lut_entry_inverts_scaling(
    pos: int,
    box_size: int,
    message_modulus: int,
    delta: u64,
    m: int,
)
    requires
        1 <= box_size,
        1 <= message_modulus,
        0 <= m <= u64::MAX,
        pos / box_size == m * message_modulus,
    ensures
        carry_lut_entry(pos, box_size, message_modulus, delta) == (m as u64).wrapping_mul(delta),
{
    lemma_carry_extraction_scale_invariance(m, message_modulus);
}

/// Builds the carry extraction lookup table for the given output shape:
/// entry `x` of the table holds `x / message_modulus`, scaled to the
/// plaintext encoding, replicated over its redundancy box and rotated by
/// half a box so that rounding decides the box.
pub fn generate_carry_extraction_lookup_table(
    glwe_size: GlweSize,
    polynomial_size: PolynomialSize,
    ciphertext_modulus: CiphertextModulus,
    message_modulus: MessageModulus,
    carry_modulus: CarryModulus,
) -> (r: GlweLookupTable)
    requires
        2 <= glwe_size.0 <= 8,
        1 <= polynomial_size.0 <= 0x10_0000,
        1 <= message_modulus.0,
        1 <= carry_modulus.0,
        message_modulus.0 * carry_modulus.0 <= polynomial_size.0,
        (polynomial_size.0 as int) % (message_modulus.0 as int * carry_modulus.0 as int) == 0,
        message_modulus.0 * carry_modulus.0 <= 0x8000_0000,
    ensures
        r.wf(),
        r.acc.polynomial_size == polynomial_size,
        r.acc.glwe_size_spec() == glwe_size.0,
        r.degree.0 == ((message_modulus.0 * carry_modulus.0 - 1) as int) / (message_modulus.0 as int),
        // a trivial accumulator: zero mask polynomials, and a body that
        // holds exactly the rotated carry extraction table
        forall|j: int|
            0 <= j < (glwe_size.0 - 1) * polynomial_size.0 ==> r.acc.data@[j] == 0u64,
        forall|j: int|
            0 <= j < polynomial_size.0 ==> r.acc.data@[(glwe_size.0 - 1) * polynomial_size.0 + j]
                == carry_extraction_table(
                polynomial_size.0 as int,
                message_modulus.0 as int,
                carry_modulus.0 as int,
            )[j],
{
    let n = polynomial_size.0;
    proof {
        assert(1 <= (message_modulus.0 as int) * (carry_modulus.0 as int)) by (nonlinear_arith)
            requires
                1 <= message_modulus.0,
                1 <= carry_modulus.0,
        ;
    }
    let plaintext_space = message_modulus.0 * carry_modulus.0;
    let box_size = n / plaintext_space;
    proof {
        vstd::arithmetic::div_mod::lemma_fundamental_div_mod(
            n as int,
            plaintext_space as int,
        );
        vstd::arithmetic::mul::lemma_mul_is_commutative(plaintext_space as int, box_size as int);
        vstd::arithmetic::div_mod::lemma_fundamental_div_mod_converse(
            plaintext_space as int,
            plaintext_space as int,
            1,
            0,
        );
        vstd::arithmetic::div_mod::lemma_div_is_ordered(
            plaintext_space as int,
            n as int,
            plaintext_space as int,
        );
        vstd::arithmetic::div_mod::lemma_fundamental_div_mod(box_size as int, 2);
        assert((box_size as int) <= (box_size as int) * (plaintext_space as int))
            by (nonlinear_arith)
            requires
                1 <= plaintext_space,
                0 <= box_size,
        ;
    }
    // delta scales a plaintext into the high bits, below the padding bit
    let delta: u64 = (1u64 << 63) / (plaintext_space as u64);
    // the body is built already rotated by minus half a box: coefficient
    // j looks half a box ahead, wrapping past the end with a sign flip
    let half = box_size / 2;
    let mut rotated: Vec<u64> = Vec::new();
    let mut j: usize = 0;
    while j < n
        invariant
            j <= n,
            n == polynomial_size.0,
            rotated@.len() == j,
            box_size == n / plaintext_space,
            half == box_size / 2,
            half <= box_size <= n,
            delta == (1u64 << 63) / (plaintext_space as u64),
            1 <= plaintext_space,
            plaintext_space == message_modulus.0 * carry_modulus.0,
            plaintext_space <= 0x8000_0000,
            1 <= message_modulus.0,
            box_size >= 1,
            n == (n / plaintext_space) * plaintext_space,
            n <= 0x10_0000,
            forall|j2: int|
                0 <= j2 < j ==> rotated@[j2] == carry_lut_coeff(
                    j2,
                    n as int,
                    box_size as int,
                    message_modulus.0 as int,
                    delta,
                ),
        decreases n - j,
    {
        let pos = j + half;
        let src = if pos < n {
            pos
        } else {
            pos - n
        };
        proof {
            vstd::arithmetic::div_mod::lemma_fundamental_div_mod(src as int, box_size as int);
            assert((src as int) / (box_size as int) < plaintext_space as int) by {
                vstd::arithmetic::div_mod::lemma_div_is_ordered(
                    src as int,
                    n as int - 1,
                    box_size as int,
                );
                vstd::arithmetic::mul::lemma_mul_is_commutative(
                    box_size as int,
                    plaintext_space as int,
                );
                vstd::arithmetic::div_mod::lemma_multiply_divide_lt(
                    n as int - 1,
                    box_size as int,
                    plaintext_space as int,
                );
            }
            vstd::arithmetic::div_mod::lemma_div_is_ordered(0, src as int, box_size as int);
        }
        let x = (src / box_size) as u64;
        let value = carry_extraction_lut_fn(x, message_modulus).wrapping_mul(delta);
        let coeff = if pos < n {
            value
        } else {
            0u64.wrapping_sub(value)
        };
        rotated.push(coeff);
        j += 1;
    }
    proof {
        assert((glwe_size.0 as int - 1) * (n as int) + n == (glwe_size.0 as int) * (n as int)
            && 0 <= (glwe_size.0 as int - 1) * (n as int) && (glwe_size.0 as int) * (n as int)
            <= usize::MAX) by (nonlinear_arith)
            requires
                2 <= glwe_size.0 <= 8,
                1 <= n <= 0x10_0000,
        ;
    }
    let ghost rotated_view = rotated@;
    let mut data: Vec<u64> = zero_vec((glwe_size.0 - 1) * n);
    data.append(&mut rotated);
    proof {
        vstd::arithmetic::div_mod::lemma_fundamental_div_mod_converse(
            data@.len() as int,
            n as int,
            glwe_size.0 as int,
            0,
        );
        assert forall|j: int| 0 <= j < n implies data@[(glwe_size.0 - 1) * n + j]
            == carry_extraction_table(
            n as int,
            message_modulus.0 as int,
            carry_modulus.0 as int,
        )[j] by {
            assert(data@[(glwe_size.0 - 1) * n + j] == rotated_view[j]);
            assert((plaintext_space as int) == (message_modulus.0 as int) * (
            carry_modulus.0 as int));
            assert((n as int) / ((message_modulus.0 as int) * (carry_modulus.0 as int))
                == box_size as int);
            assert((((message_modulus.0 as int) * (carry_modulus.0 as int)) as u64)
                == (plaintext_space as u64));
            assert(rotated_view[j] == carry_lut_coeff(
                j,
                n as int,
                box_size as int,
                message_modulus.0 as int,
                delta,
            ));
        }
    }
    let acc = GlweCiphertext {
        data,
        polynomial_size,
        ciphertext_modulus,
    };
    // the largest value the table takes on the valid plaintext range
    let degree = (plaintext_space - 1) / message_modulus.0;
    GlweLookupTable { acc, degree: Degree(degree) }
}

/// Every polynomial of a flat GLWE buffer multiplied by `X^exponent`:
/// destination `j` of each polynomial takes its unique source
/// coefficient, negated where the monomial wraps past degree `n`.
pub open spec fn rotated_glwe(src: Seq<u64>, n: int, exponent: int) -> Seq<u64> {
    Seq::new(
        src.len(),
        |k: int|
            {
                let p = k / n;
                let j = k % n;
                let s = src[p * n + crate::polynomial::monomial_source_index(j, exponent, n)];
                if crate::polynomial::monomial_sign_flips(j, exponent, n) {
                    0u64.wrapping_sub(s)
                } else {
                    s
                }
            },
    )
}

/// Rotates every polynomial of a flat GLWE buffer by the monomial
/// `X^exponent`, returning the rotated buffer.
fn rotate_glwe_data(src: &Vec<u64>, n: usize, exponent: usize) -> (r: Vec<u64>)
    requires
        1 <= n <= 0x10_0000,
        exponent < 2 * n,
        src.len() % n == 0,
        src.len() <= 0x80_0000,
    ensures
        r@.len() == src@.len(),
        r@ =~= rotated_glwe(src@, n as int, exponent as int),
{
    let count = src.len() / n;
    let mut out: Vec<u64> = zero_vec(src.len());
    let mut p: usize = 0;
    proof {
        vstd::arithmetic::div_mod::lemma_fundamental_div_mod(src@.len() as int, n as int);
        vstd::arithmetic::mul::lemma_mul_is_commutative(n as int, count as int);
        assert(forall|x: u64| #[trigger] (0u64.wrapping_add(x)) == x) by (bit_vector);
    }
    while p < count
        invariant
            1 <= n <= 0x10_0000,
            exponent < 2 * n,
            p <= count,
            out@.len() == src@.len(),
            src@.len() == (count as int) * (n as int),
            src@.len() <= 0x80_0000,
            forall|x: u64| #[trigger] (0u64.wrapping_add(x)) == x,
            forall|k: int|
                0 <= k < out@.len() ==> #[trigger] out@[k] == (if k / (n as int) < p {
                    rotated_glwe(src@, n as int, exponent as int)[k]
                } else {
                    0u64
                }),
        decreases count - p,
    {
        proof {
            assert((p as int + 1) * (n as int) <= (count as int) * (n as int) && (p as int) * (
            n as int) >= 0 && (p as int + 1) * (n as int) == (p as int) * (n as int) + n)
                by (nonlinear_arith)
                requires
                    0 <= p < count,
                    1 <= n,
            ;
        }
        let ghost pre = out@;
        monomial_mul_acc(&mut out, p * n, src, p * n, exponent, n);
        proof {
            assert forall|k: int| 0 <= k < out@.len() implies #[trigger] out@[k] == (if k / (
            n as int) < p + 1 {
                rotated_glwe(src@, n as int, exponent as int)[k]
            } else {
                0u64
            }) by {
                vstd::arithmetic::div_mod::lemma_fundamental_div_mod(k, n as int);
                vstd::arithmetic::div_mod::lemma_mod_bound(k, n as int);
                vstd::arithmetic::div_mod::lemma_div_is_ordered(0, k, n as int);
                vstd::arithmetic::mul::lemma_mul_is_commutative(n as int, k / (n as int));
                let q = k / (n as int);
                if q < p {
                    vstd::arithmetic::mul::lemma_mul_inequality(q + 1, p as int, n as int);
                    assert((q + 1) * (n as int) == q * (n as int) + n) by (nonlinear_arith);
                    assert(k < (p as int) * (n as int));
                    assert(out@[k] == pre[k]);
                } else if q == p {
                    let j0 = k % (n as int);
                    assert(k == (p as int) * (n as int) + j0);
                    assert(out@[(p as int) * (n as int) + j0] == (
                    if crate::polynomial::monomial_sign_flips(j0, exponent as int, n as int) {
                        pre[(p as int) * (n as int) + j0].wrapping_sub(src@[(p as int) * (n as int)
                            + crate::polynomial::monomial_source_index(
                            j0,
                            exponent as int,
                            n as int,
                        )])
                    } else {
                        pre[(p as int) * (n as int) + j0].wrapping_add(src@[(p as int) * (n as int)
                            + crate::polynomial::monomial_source_index(
                            j0,
                            exponent as int,
                            n as int,
                        )])
                    }));
                    assert(pre[k] == 0u64);
                } else {
                    vstd::arithmetic::mul::lemma_mul_inequality(p as int + 1, q, n as int);
                    assert((p as int + 1) * (n as int) == (p as int) * (n as int) + n)
                        by (nonlinear_arith);
                    assert(k >= (p as int) * (n as int) + n);
                    assert(out@[k] == pre[k]);
                }
            }
        }
        p += 1;
    }
    proof {
        assert forall|k: int| 0 <= k < out@.len() implies out@[k] == rotated_glwe(
            src@,
            n as int,
            exponent as int,
        )[k] by {
            vstd::arithmetic::div_mod::lemma_div_is_ordered(k, src@.len() as int - 1, n as int);
            vstd::arithmetic::mul::lemma_mul_is_commutative(n as int, count as int);
            vstd::arithmetic::div_mod::lemma_multiply_divide_lt(k, n as int, count as int);
        }
    }
    out
}

/// The accumulator after the first `steps` selector steps of a blind
/// rotation: step `s` rotates by the modulus-switched mask element `s`
/// and adds the external product of the difference with GGSW `s`, the
/// homomorphic selection between the rotated and unrotated accumulator.
pub open spec fn br_after(
    bsk: LweBootstrapKey,
    input: Seq<u64>,
    log: int,
    acc0: Seq<u64>,
    steps: int,
) -> Seq<u64>
    decreases steps,
{
    if steps <= 0 {
        acc0
    } else {
        let prev = br_after(bsk, input, log, acc0, steps - 1);
        let n = bsk.polynomial_size.0 as int;
        let e = crate::compressed_glwe::switched_coefficient(input[steps - 1], log) as int;
        if e == 0 {
            prev
        } else {
            let rot = rotated_glwe(prev, n, e);
            let diff = Seq::new(prev.len(), |k: int| rot[k].wrapping_sub(prev[k]));
            ep_after(
                bsk,
                steps - 1,
                diff,
                prev,
                (bsk.glwe_size.0 as int) * (bsk.decomp_level_count.0 as int),
            )
        }
    }
}

/// The whole blind rotation of an accumulator by an input ciphertext:
/// an initial rotation by minus the modulus-switched body, then one
/// selector step per mask element.
pub open spec fn blind_rotated(bsk: LweBootstrapKey, input: Seq<u64>, acc0: Seq<u64>) -> Seq<
    u64,
> {
    let n = bsk.polynomial_size.0 as int;
    let log = crate::parameters::spec_blind_rotation_log(n);
    let dim = bsk.input_lwe_dimension_spec();
    let sb = crate::compressed_glwe::switched_coefficient(input[dim], log) as int;
    let start = rotated_glwe(acc0, n, if sb == 0 { 0 } else { 2 * n - sb });
    br_after(bsk, input, log, start, dim)
}

/// Blindly rotates `acc` by the phase of the modulus-switched input
/// ciphertext: afterwards the constant coefficient of `acc` holds (up to
/// noise) the table entry selected by the input's plaintext.
pub fn blind_rotate_assign(
    bsk: &LweBootstrapKey,
    input: &LweCiphertext,
    acc: &mut GlweCiphertext,
)
    requires
        bsk.wf(),
        input.wf(),
        old(acc).wf(),
        input.lwe_size_spec() == bsk.input_lwe_dimension_spec() + 1,
        old(acc).polynomial_size == bsk.polynomial_size,
        old(acc).glwe_size_spec() == bsk.glwe_size.0,
        old(acc).polynomial_size.0 >= 2,
        crate::parameters::is_power_of_two(bsk.polynomial_size.0 as int),
    ensures
        final(acc).wf(),
        final(acc).polynomial_size == old(acc).polynomial_size,
        final(acc).glwe_size_spec() == old(acc).glwe_size_spec(),
        final(acc).data@.len() == old(acc).data@.len(),
        final(acc).data@ =~= blind_rotated(*bsk, input.data@, old(acc).data@),
{
    let n = bsk.polynomial_size.0;
    let glwe_size = bsk.glwe_size.0;
    let level = bsk.decomp_level_count.0;
    let base_log = bsk.decomp_base_log.0;
    let input_dim = bsk.input_lwe_dimension().0;
    let key_len = bsk.data.len();
    let lut_modulus_log = PolynomialSize(n).to_blind_rotation_input_modulus_log();
    proof {
        crate::parameters::lemma_blind_rotation_log_unique(
            n as int,
            lut_modulus_log.0 as int,
        );
    }
    let ghost ggsw = bsk.ggsw_size_spec();
    proof {
        lemma_ggsw_size_bounds(level as int, glwe_size as int, n as int);
        vstd::arithmetic::div_mod::lemma_fundamental_div_mod(
            old(acc).data@.len() as int,
            n as int,
        );
        vstd::arithmetic::mul::lemma_mul_is_commutative(
            n as int,
            old(acc).glwe_size_spec(),
        );
    }
    let glwe_len = glwe_size * n;
    // modulus switch the body and rotate the accumulator by minus it
    let body = input.data[input_dim];
    let switched_body = modulus_switch_to(body, lut_modulus_log, n);
    let rotated = rotate_glwe_data(&acc.data, n, if switched_body == 0 {
        0
    } else {
        2 * n - switched_body
    });
    acc.data = rotated;
    let ghost start_acc = acc.data@;
    // one CMUX per input key element
    let mut i: usize = 0;
    while i < input_dim
        invariant
            bsk.wf(),
            input.wf(),
            i <= input_dim,
            n == bsk.polynomial_size.0,
            2 <= n,
            glwe_size == bsk.glwe_size.0,
            level == bsk.decomp_level_count.0,
            base_log == bsk.decomp_base_log.0,
            input_dim == bsk.input_lwe_dimension_spec(),
            input.data@.len() == input_dim + 1,
            glwe_len == glwe_size * n,
            glwe_len <= 0x80_0000,
            ggsw == bsk.ggsw_size_spec(),
            key_len == bsk.data.len(),
            acc.wf(),
            acc.polynomial_size == old(acc).polynomial_size,
            acc.polynomial_size.0 == n,
            acc.data@.len() == old(acc).data@.len(),
            acc.data@.len() == glwe_len,
            acc.glwe_size_spec() == old(acc).glwe_size_spec(),
            pow2_fits(lut_modulus_log, n),
            lut_modulus_log.0 as int == crate::parameters::spec_blind_rotation_log(n as int),
            acc.data@ =~= br_after(
                *bsk,
                input.data@,
                lut_modulus_log.0 as int,
                start_acc,
                i as int,
            ),
        decreases input_dim - i,
    {
        let a_i = input.data[i];
        let switched = modulus_switch_to(a_i, lut_modulus_log, n);
        let ghost acc_prev = acc.data@;
        if switched != 0 {
            // difference between the rotated and current accumulator
            let rotated_acc = rotate_glwe_data(&acc.data, n, switched);
            let mut diff: Vec<u64> = Vec::new();
            let mut k: usize = 0;
            while k < glwe_len
                invariant
                    k <= glwe_len,
                    diff@.len() == k,
                    rotated_acc@.len() == glwe_len,
                    acc.data@.len() == glwe_len,
                    acc.data@ =~= acc_prev,
                    forall|k2: int|
                        0 <= k2 < k ==> #[trigger] diff@[k2] == rotated_acc@[k2].wrapping_sub(
                            acc.data@[k2],
                        ),
                decreases glwe_len - k,
            {
                diff.push(rotated_acc[k].wrapping_sub(acc.data[k]));
                k += 1;
            }
            proof {
                assert(diff@ =~= Seq::new(
                    acc_prev.len(),
                    |k: int| rotated_glwe(acc_prev, n as int, switched as int)[k].wrapping_sub(
                        acc_prev[k],
                    ),
                ));
            }
            external_product_assign(bsk, i, &diff, acc, glwe_len);
            proof {
                assert(acc.data@ =~= br_after(
                    *bsk,
                    input.data@,
                    lut_modulus_log.0 as int,
                    start_acc,
                    i as int + 1,
                ));
            }
        } else {
            proof {
                assert(acc.data@ =~= br_after(
                    *bsk,
                    input.data@,
                    lut_modulus_log.0 as int,
                    start_acc,
                    i as int + 1,
                ));
            }
        }
        i += 1;
    }
    proof {
        assert(acc.data@ =~= blind_rotated(*bsk, input.data@, old(acc).data@));
    }
}

/// Whether `2^(log.0 - 1) == n`: the relation between a blind rotation
/// input modulus log and the polynomial size it serves.
pub open spec fn pow2_fits(log: CiphertextModulusLog, n: usize) -> bool {
    &&& 1 <= log.0 <= 63
    &&& crate::parameters::pow2_int(log.0 as int) == 2 * n
}

/// Switches a torus element down to the `2n`-valued rotation modulus by
/// rounding, returning a monomial degree in `[0, 2n)`.
fn modulus_switch_to(value: u64, log: CiphertextModulusLog, n: usize) -> (r: usize)
    requires
        pow2_fits(log, n),
        1 <= n <= 0x10_0000,
    ensures
        r < 2 * n,
        r == switched_coefficient(value, log.0 as int),
{
    let l = log.0;
    let switched = value.wrapping_add(1u64 << ((63 - l) as u64)) >> ((64 - l) as u64);
    proof {
        let lu = l as u64;
        assert(1 <= lu <= 63 ==> (value.wrapping_add(1u64 << ((63 - lu) as u64)) >> ((64 - lu)
            as u64)) < (1u64 << lu)) by (bit_vector);
        lemma_pow2_int_shift(l as int);
    }
    switched as usize
}

/// `1u64 << l` agrees with the mathematical power of two for `l < 64`.
proof fn lemma_pow2_int_shift(l: int)
    requires
        0 <= l <= 63,
    ensures
        (1u64 << (l as u64)) == crate::parameters::pow2_int(l),
    decreases l,
{
    if l == 0 {
        assert(1u64 << 0u64 == 1) by (bit_vector);
    } else {
        lemma_pow2_int_shift(l - 1);
        let prev = (l - 1) as u64;
        assert(prev <= 62 ==> (1u64 << ((prev + 1) as u64)) == 2 * (1u64 << prev))
            by (bit_vector);
    }
}

/// The gadget decomposition at level `j` of one polynomial of a flat
/// GLWE buffer.
pub open spec fn ep_decomposed(diff: Seq<u64>, p2: int, n: int, base_log: int, j: int) -> Seq<
    u64,
> {
    Seq::new(
        n as nat,
        |t: int| crate::keyswitch::ks_decomposition_factor(diff[p2 * n + t], base_log, j),
    )
}

/// The accumulator after the first `steps` gadget terms of the external
/// product of GGSW ciphertext `index` with `diff`: step `s` convolves the
/// level-`s % level + 1` decomposition of polynomial `s / level` of
/// `diff` with the matching GGSW row, into every output polynomial.
pub open spec fn ep_after(
    bsk: LweBootstrapKey,
    index: int,
    diff: Seq<u64>,
    init: Seq<u64>,
    steps: int,
) -> Seq<u64>
    decreases steps,
{
    if steps <= 0 {
        init
    } else {
        let prev = ep_after(bsk, index, diff, init, steps - 1);
        let level = bsk.decomp_level_count.0 as int;
        let n = bsk.polynomial_size.0 as int;
        let glwe_size = bsk.glwe_size.0 as int;
        let p2 = (steps - 1) / level;
        let j = (steps - 1) % level + 1;
        let d = ep_decomposed(diff, p2, n, bsk.decomp_base_log.0 as int, j);
        let row_base = index * (level * glwe_size * glwe_size * n) + ((j - 1) * glwe_size + p2) * (
        glwe_size * n);
        Seq::new(
            prev.len(),
            |k: int|
                {
                    let q = k / n;
                    let jj = k % n;
                    crate::polynomial::negacyclic_partial(
                        d,
                        0,
                        bsk.data@,
                        row_base + q * n,
                        n,
                        n,
                        jj,
                        prev[k],
                    )
                },
        )
    }
}

/// Adds the external product of GGSW ciphertext `index` of `bsk` with the
/// GLWE ciphertext `diff` into `acc`: homomorphically, `acc` gains the
/// GGSW's key bit times `diff`.
fn external_product_assign(
    bsk: &LweBootstrapKey,
    index: usize,
    diff: &Vec<u64>,
    acc: &mut GlweCiphertext,
    glwe_len: usize,
)
    requires
        bsk.wf(),
        index < bsk.input_lwe_dimension_spec(),
        glwe_len == (bsk.glwe_size.0 as int) * (bsk.polynomial_size.0 as int),
        diff.len() == glwe_len,
        old(acc).wf(),
        old(acc).polynomial_size == bsk.polynomial_size,
        old(acc).data@.len() == glwe_len,
    ensures
        final(acc).wf(),
        final(acc).polynomial_size == old(acc).polynomial_size,
        final(acc).glwe_size_spec() == old(acc).glwe_size_spec(),
        final(acc).data@.len() == old(acc).data@.len(),
        final(acc).data@ =~= ep_after(
            *bsk,
            index as int,
            diff@,
            old(acc).data@,
            (bsk.glwe_size.0 as int) * (bsk.decomp_level_count.0 as int),
        ),
{
    let n = bsk.polynomial_size.0;
    let glwe_size = bsk.glwe_size.0;
    let level = bsk.decomp_level_count.0;
    let base_log = bsk.decomp_base_log.0;
    let key_len = bsk.data.len();
    let ghost ggsw = bsk.ggsw_size_spec();
    proof {
        lemma_ggsw_size_bounds(level as int, glwe_size as int, n as int);
    }
    proof {
        assert((index as int) * ((level as int) * (glwe_size as int) * (glwe_size as int) * (
        n as int)) + ggsw <= (bsk.input_lwe_dimension_spec()) * ggsw && 0 <= (index as int) * ggsw
            && (index as int) * ((level as int) * (glwe_size as int) * (glwe_size as int) * (
        n as int)) == (index as int) * ggsw) by (nonlinear_arith)
            requires
                0 <= index < bsk.input_lwe_dimension_spec(),
                ggsw == (bsk.decomp_level_count.0 as int) * (bsk.glwe_size.0 as int) * (
                bsk.glwe_size.0 as int) * (bsk.polynomial_size.0 as int),
                ggsw == (level as int) * (glwe_size as int) * (glwe_size as int) * (n as int),
                ggsw >= 1,
            ;
    }
    let ggsw_base = index * (level * glwe_size * glwe_size * n);
    let mut p2: usize = 0;
    while p2 < glwe_size
        invariant
            bsk.wf(),
            p2 <= glwe_size,
            n == bsk.polynomial_size.0,
            glwe_size == bsk.glwe_size.0,
            level == bsk.decomp_level_count.0,
            base_log == bsk.decomp_base_log.0,
            glwe_len == glwe_size * n,
            diff.len() == glwe_len,
            key_len == bsk.data.len(),
            ggsw == bsk.ggsw_size_spec(),
            ggsw_base == index * ggsw,
            ggsw_base + ggsw <= key_len,
            acc.wf(),
            acc.polynomial_size == old(acc).polynomial_size,
            acc.polynomial_size.0 == n,
            acc.data@.len() == old(acc).data@.len(),
            acc.data@.len() == glwe_len,
            acc.glwe_size_spec() == old(acc).glwe_size_spec(),
            acc.data@ =~= ep_after(
                *bsk,
                index as int,
                diff@,
                old(acc).data@,
                (p2 as int) * (level as int),
            ),
        decreases glwe_size - p2,
    {
        let mut j: usize = 1;
        while j <= level
            invariant
                bsk.wf(),
                1 <= j <= level + 1,
                p2 < glwe_size,
                n == bsk.polynomial_size.0,
                glwe_size == bsk.glwe_size.0,
                level == bsk.decomp_level_count.0,
                base_log == bsk.decomp_base_log.0,
                glwe_len == glwe_size * n,
                diff.len() == glwe_len,
                key_len == bsk.data.len(),
                ggsw == bsk.ggsw_size_spec(),
                ggsw_base == index * ggsw,
                ggsw_base + ggsw <= key_len,
                acc.wf(),
                acc.polynomial_size == old(acc).polynomial_size,
                acc.polynomial_size.0 == n,
                acc.data@.len() == old(acc).data@.len(),
                acc.data@.len() == glwe_len,
                acc.glwe_size_spec() == old(acc).glwe_size_spec(),
                1 <= level,
                acc.data@ =~= ep_after(
                    *bsk,
                    index as int,
                    diff@,
                    old(acc).data@,
                    (p2 as int) * (level as int) + (j as int) - 1,
                ),
            decreases level + 1 - j,
        {
            proof {
                assert(1 <= (base_log as int) * (j as int) && (base_log as int) * (j as int)
                    <= 64) by (nonlinear_arith)
                    requires
                        1 <= j <= level,
                        1 <= base_log,
                        (base_log as int) * (level as int) <= 64,
                ;
            }
            let shift = 64 - base_log * j;
            proof {
                let b = base_log as u64;
                assert(b < 64 ==> (1u64 << b) >= 1) by (bit_vector);
                assert((p2 as int + 1) * (n as int) <= (glwe_size as int) * (n as int) && 0 <= (
                p2 as int) * (n as int) && (p2 as int + 1) * (n as int) == (p2 as int) * (n as int)
                    + n) by (nonlinear_arith)
                    requires
                        0 <= p2 < glwe_size,
                        1 <= n,
                ;
            }
            let mask = (1u64 << (base_log as u64)) - 1;
            // decompose one polynomial of the difference at this level
            let mut decomposed: Vec<u64> = Vec::new();
            let mut t: usize = 0;
            while t < n
                invariant
                    t <= n,
                    decomposed@.len() == t,
                    diff.len() == glwe_len,
                    (p2 as int) * (n as int) + n <= glwe_len,
                    0 <= (p2 as int) * (n as int),
                    shift <= 63,
                    shift == 64 - (base_log as int) * (j as int),
                    mask == ((1u64 << (base_log as u64)) - 1),
                    forall|t2: int|
                        0 <= t2 < t ==> #[trigger] decomposed@[t2]
                            == crate::keyswitch::ks_decomposition_factor(
                            diff@[(p2 as int) * (n as int) + t2],
                            base_log as int,
                            j as int,
                        ),
                decreases n - t,
            {
                let c = diff[p2 * n + t];
                let raw = if shift == 0 {
                    c
                } else {
                    c >> (shift as u64)
                };
                decomposed.push(raw & mask);
                t += 1;
            }
            proof {
                assert(decomposed@ =~= ep_decomposed(
                    diff@,
                    p2 as int,
                    n as int,
                    base_log as int,
                    j as int,
                ));
            }
            // accumulate the decomposition times GGSW row (j, p2)
            proof {
                lemma_ggsw_row_bounds(
                    j as int,
                    p2 as int,
                    level as int,
                    glwe_size as int,
                    n as int,
                    ggsw,
                    glwe_len as int,
                );
            }
            let row_base = ggsw_base + ((j - 1) * glwe_size + p2) * glwe_len;
            let ghost pre_step = acc.data@;
            let mut q: usize = 0;
            while q < glwe_size
                invariant
                    bsk.wf(),
                    q <= glwe_size,
                    n == bsk.polynomial_size.0,
                    glwe_size == bsk.glwe_size.0,
                    glwe_len == glwe_size * n,
                    decomposed@.len() == n,
                    key_len == bsk.data.len(),
                    row_base + glwe_len <= key_len,
                    1 <= n <= 0x10_0000,
                    acc.wf(),
                    acc.polynomial_size == old(acc).polynomial_size,
                    acc.polynomial_size.0 == n,
                    acc.data@.len() == old(acc).data@.len(),
                    acc.data@.len() == glwe_len,
                    acc.glwe_size_spec() == old(acc).glwe_size_spec(),
                    pre_step.len() == glwe_len,
                    forall|k: int|
                        0 <= k < glwe_len ==> #[trigger] acc.data@[k] == (if k / (n as int) < q {
                            crate::polynomial::negacyclic_partial(
                                decomposed@,
                                0,
                                bsk.data@,
                                (row_base as int) + (k / (n as int)) * (n as int),
                                n as int,
                                n as int,
                                k % (n as int),
                                pre_step[k],
                            )
                        } else {
                            pre_step[k]
                        }),
                decreases glwe_size - q,
            {
                proof {
                    assert((q as int + 1) * (n as int) <= (glwe_size as int) * (n as int) && 0
                        <= (q as int) * (n as int) && (q as int + 1) * (n as int) == (q as int) * (
                    n as int) + n) by (nonlinear_arith)
                        requires
                            0 <= q < glwe_size,
                            1 <= n,
                    ;
                }
                let ghost pre_row = acc.data@;
                poly_mul_acc(&mut acc.data, q * n, &decomposed, 0, &bsk.data, row_base + q * n, n);
                proof {
                    assert forall|k: int| 0 <= k < glwe_len implies #[trigger] acc.data@[k] == (
                    if k / (n as int) < q + 1 {
                        crate::polynomial::negacyclic_partial(
                            decomposed@,
                            0,
                            bsk.data@,
                            (row_base as int) + (k / (n as int)) * (n as int),
                            n as int,
                            n as int,
                            k % (n as int),
                            pre_step[k],
                        )
                    } else {
                        pre_step[k]
                    }) by {
                        vstd::arithmetic::div_mod::lemma_fundamental_div_mod(k, n as int);
                        vstd::arithmetic::div_mod::lemma_mod_bound(k, n as int);
                        vstd::arithmetic::div_mod::lemma_div_is_ordered(0, k, n as int);
                        vstd::arithmetic::mul::lemma_mul_is_commutative(n as int, k / (n as int));
                        let qq = k / (n as int);
                        if qq < q {
                            vstd::arithmetic::mul::lemma_mul_inequality(qq + 1, q as int, n as int);
                            assert((qq + 1) * (n as int) == qq * (n as int) + n)
                                by (nonlinear_arith);
                            assert(k < (q as int) * (n as int));
                            assert(acc.data@[k] == pre_row[k]);
                        } else if qq == q {
                            let jj = k % (n as int);
                            assert(k == (q as int) * (n as int) + jj);
                            assert(acc.data@[(q as int) * (n as int) + jj]
                                == crate::polynomial::negacyclic_partial(
                                decomposed@,
                                0,
                                bsk.data@,
                                ((row_base + q * n) as int),
                                n as int,
                                n as int,
                                jj,
                                pre_row[(q as int) * (n as int) + jj],
                            ));
                        } else {
                            vstd::arithmetic::mul::lemma_mul_inequality(q as int + 1, qq, n as int);
                            assert((q as int + 1) * (n as int) == (q as int) * (n as int) + n)
                                by (nonlinear_arith);
                            assert(k >= (q as int) * (n as int) + n);
                            assert(acc.data@[k] == pre_row[k]);
                        }
                    }
                }
                q += 1;
            }
            proof {
                let steps = (p2 as int) * (level as int) + (j as int) - 1;
                vstd::arithmetic::div_mod::lemma_fundamental_div_mod_converse(
                    steps,
                    level as int,
                    p2 as int,
                    (j as int) - 1,
                );
                assert forall|k: int| 0 <= k < glwe_len implies acc.data@[k] == ep_after(
                    *bsk,
                    index as int,
                    diff@,
                    old(acc).data@,
                    steps + 1,
                )[k] by {
                    vstd::arithmetic::div_mod::lemma_div_is_ordered(
                        k,
                        glwe_len as int - 1,
                        n as int,
                    );
                    vstd::arithmetic::mul::lemma_mul_is_commutative(n as int, glwe_size as int);
                    vstd::arithmetic::div_mod::lemma_multiply_divide_lt(
                        k,
                        n as int,
                        glwe_size as int,
                    );
                }
                assert(acc.data@ =~= ep_after(
                    *bsk,
                    index as int,
                    diff@,
                    old(acc).data@,
                    steps + 1,
                ));
            }
            j += 1;
        }
        proof {
            assert((p2 as int + 1) * (level as int) == (p2 as int) * (level as int) + level)
                by (nonlinear_arith);
        }
        p2 += 1;
    }
}

/// GGSW row `(j, p2)` lies inside GGSW ciphertext bounds.
proof fn lemma_ggsw_row_bounds(
    j: int,
    p2: int,
    level: int,
    glwe_size: int,
    n: int,
    ggsw: int,
    glwe_len: int,
)
    by (nonlinear_arith)
    requires
        1 <= j <= level,
        0 <= p2 < glwe_size,
        1 <= level <= 8,
        2 <= glwe_size <= 8,
        1 <= n <= 0x10_0000,
        ggsw == level * glwe_size * glwe_size * n,
        glwe_len == glwe_size * n,
    ensures
        0 <= ((j - 1) * glwe_size + p2) * glwe_len,
        ((j - 1) * glwe_size + p2) * glwe_len + glwe_len <= ggsw,
        (j - 1) * glwe_size + p2 < 0x100,
{
}

/// Element `i` of the LWE sample extracted at `degree` from a flat GLWE
/// buffer of `glwe_dim` mask polynomials: the mask is the sign-adjusted
/// reversal of the GLWE mask coefficients around the degree, and the
/// last element is the body coefficient at the degree itself.
pub open spec fn extracted_sample_element(
    glwe_data: Seq<u64>,
    n: int,
    glwe_dim: int,
    degree: int,
    i: int,
) -> u64 {
    if i < glwe_dim * n {
        let k = i / n;
        let t = i % n;
        if t <= degree {
            glwe_data[k * n + degree - t]
        } else {
            0u64.wrapping_sub(glwe_data[k * n + n + degree - t])
        }
    } else {
        glwe_data[glwe_dim * n + degree]
    }
}

/// Positions of distinct mask pairs are distinct and ordered.
proof fn lemma_pair_index(k2: int, t2: int, k: int, t: int, n: int)
    by (nonlinear_arith)
    requires
        0 <= t2 < n,
        0 <= t,
        1 <= n,
        0 <= k2 < k,
    ensures
        k2 * n + t2 < k * n + t,
        0 <= k2 * n + t2,
{
}

/// Extracts the coefficient of degree `degree` of the GLWE ciphertext as
/// an LWE ciphertext under the flattened GLWE key.
pub fn extract_lwe_sample_from_glwe_ciphertext(
    glwe: &GlweCiphertext,
    output: &mut LweCiphertext,
    degree: usize,
)
    requires
        glwe.wf(),
        degree < glwe.polynomial_size.0,
        old(output).lwe_size_spec() == (glwe.glwe_size_spec() - 1) * glwe.polynomial_size.0 + 1,
        glwe.polynomial_size.0 <= 0x10_0000,
        glwe.glwe_size_spec() <= 8,
    ensures
        final(output).wf(),
        final(output).lwe_size_spec() == old(output).lwe_size_spec(),
        forall|i: int|
            0 <= i < final(output).data@.len() ==> final(output).data@[i]
                == extracted_sample_element(
                glwe.data@,
                glwe.polynomial_size.0 as int,
                glwe.glwe_size_spec() - 1,
                degree as int,
                i,
            ),
{
    let n = glwe.polynomial_size.0;
    let glwe_size = glwe.glwe_size();
    proof {
        vstd::arithmetic::div_mod::lemma_fundamental_div_mod(glwe.data@.len() as int, n as int);
        vstd::arithmetic::mul::lemma_mul_is_commutative(n as int, glwe.glwe_size_spec());
        vstd::arithmetic::div_mod::lemma_fundamental_div_mod_converse(n as int, n as int, 1, 0);
        vstd::arithmetic::div_mod::lemma_div_is_ordered(
            n as int,
            glwe.data@.len() as int,
            n as int,
        );
    }
    let glwe_dim = glwe_size.0 - 1;
    proof {
        assert((glwe_dim as int) * (n as int) + n == (glwe_size.0 as int) * (n as int) && 0 <= (
        glwe_dim as int) * (n as int)) by (nonlinear_arith)
            requires
                glwe_dim == glwe_size.0 - 1,
                glwe_size.0 >= 1,
                n >= 0,
        ;
    }
    let mut k: usize = 0;
    while k < glwe_dim
        invariant
            glwe.wf(),
            k <= glwe_dim,
            n == glwe.polynomial_size.0,
            1 <= n <= 0x10_0000,
            degree < n,
            glwe_dim == glwe.glwe_size_spec() - 1,
            glwe_dim < 8,
            glwe.data@.len() == (glwe_dim + 1) * n,
            glwe.data@.len() == glwe.data.len(),
            output.data@.len() == old(output).data@.len(),
            output.data@.len() == glwe_dim * n + 1,
            output.data@.len() == output.data.len(),
            forall|i: int|
                0 <= i < (k as int) * (n as int) ==> output.data@[i] == extracted_sample_element(
                    glwe.data@,
                    n as int,
                    glwe_dim as int,
                    degree as int,
                    i,
                ),
        decreases glwe_dim - k,
    {
        proof {
            assert((k as int + 1) * (n as int) <= (glwe_dim as int) * (n as int) && 0 <= (k as int)
                * (n as int) && (k as int + 1) * (n as int) == (k as int) * (n as int) + n && (
            glwe_dim as int) * (n as int) <= (glwe_dim as int + 1) * (n as int))
                by (nonlinear_arith)
                requires
                    0 <= k < glwe_dim,
                    1 <= n,
            ;
        }
        let mut t: usize = 0;
        while t < n
            invariant
                glwe.wf(),
                t <= n,
                k < glwe_dim,
                n == glwe.polynomial_size.0,
                1 <= n <= 0x10_0000,
                degree < n,
                glwe.data@.len() == (glwe_dim + 1) * n,
                glwe.data@.len() == glwe.data.len(),
                (k as int) * (n as int) + n <= glwe.data@.len(),
                0 <= (k as int) * (n as int),
                output.data@.len() == old(output).data@.len(),
                output.data@.len() == glwe_dim * n + 1,
                output.data@.len() == output.data.len(),
                (k as int) * (n as int) + n <= glwe_dim * n + 1,
                glwe_dim < 8,
                forall|i: int|
                    0 <= i < (k as int) * (n as int) + t ==> output.data@[i]
                        == extracted_sample_element(
                        glwe.data@,
                        n as int,
                        glwe_dim as int,
                        degree as int,
                        i,
                    ),
            decreases n - t,
        {
            proof {
                // the write lands at flat index k * n + t, which reads back
                // as row k, column t
                vstd::arithmetic::div_mod::lemma_fundamental_div_mod_converse(
                    (k as int) * (n as int) + t,
                    n as int,
                    k as int,
                    t as int,
                );
                assert(((k as int) * (n as int) + t) / (n as int) == k as int);
                lemma_pair_index(k as int, t as int, glwe_dim as int, 0, n as int);
            }
            let value = if t <= degree {
                glwe.data[k * n + (degree - t)]
            } else {
                0u64.wrapping_sub(glwe.data[k * n + (n + degree - t)])
            };
            output.data[k * n + t] = value;
            t += 1;
        }
        k += 1;
    }
    proof {
        assert((glwe_dim as int) * (n as int) + degree < (glwe_dim as int + 1) * (n as int) && (
        glwe_dim as int) * (n as int) >= 0 && (glwe_dim as int) * (n as int) <= 0x80_0000)
            by (nonlinear_arith)
            requires
                0 <= glwe_dim < 8,
                0 <= degree < n,
                n <= 0x10_0000,
        ;
    }
    let body = glwe.data[glwe_dim * n + degree];
    let last = output.data.len() - 1;
    output.data[last] = body;
}

/// Runs a programmable bootstrap: modulus switch, blind rotation through
/// the lookup table, and sample extraction of the constant coefficient.
pub fn apply_programmable_bootstrap(
    bsk: &LweBootstrapKey,
    input: &LweCiphertext,
    output: &mut LweCiphertext,
    lut: &GlweLookupTable,
)
    requires
        bsk.wf(),
        input.wf(),
        lut.wf(),
        input.lwe_size_spec() == bsk.input_lwe_dimension_spec() + 1,
        lut.acc.polynomial_size == bsk.polynomial_size,
        lut.acc.glwe_size_spec() == bsk.glwe_size.0,
        bsk.polynomial_size.0 >= 2,
        crate::parameters::is_power_of_two(bsk.polynomial_size.0 as int),
        old(output).lwe_size_spec() == (bsk.glwe_size.0 - 1) * bsk.polynomial_size.0 + 1,
    ensures
        final(output).wf(),
        final(output).lwe_size_spec() == old(output).lwe_size_spec(),
        // the output is the constant-coefficient sample of the blindly
        // rotated lookup table
        forall|i: int|
            0 <= i < final(output).data@.len() ==> final(output).data@[i]
                == extracted_sample_element(
                blind_rotated(*bsk, input.data@, lut.acc.data@),
                bsk.polynomial_size.0 as int,
                (bsk.glwe_size.0 - 1) as int,
                0,
                i,
            ),
{
    let n = lut.acc.polynomial_size.0;
    let mut acc_data: Vec<u64> = Vec::new();
    let mut k: usize = 0;
    let total = lut.acc.data.len();
    while k < total
        invariant
            k <= total,
            total == lut.acc.data.len(),
            acc_data@.len() == k,
            forall|k2: int| 0 <= k2 < k ==> acc_data@[k2] == lut.acc.data@[k2],
        decreases total - k,
    {
        acc_data.push(lut.acc.data[k]);
        k += 1;
    }
    let mut acc = GlweCiphertext {
        data: acc_data,
        polynomial_size: lut.acc.polynomial_size,
        ciphertext_modulus: lut.acc.ciphertext_modulus,
    };
    proof {
        assert(acc.data@ =~= lut.acc.data@);
    }
    blind_rotate_assign(bsk, input, &mut acc);
    proof {
        assert(acc.glwe_size_spec() - 1 == bsk.glwe_size.0 - 1);
        assert(acc.data@ == blind_rotated(*bsk, input.data@, lut.acc.data@));
    }
    extract_lwe_sample_from_glwe_ciphertext(&acc, output, 0);
}

} // verus!
