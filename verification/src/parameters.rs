//! Dimension, decomposition and plaintext-space parameters shared by the
//! whole engine.  All ciphertexts live over the native 64-bit modulus.

use vstd::prelude::*;

verus! {

/// Number of mask elements of an LWE ciphertext (its size minus the body).
#[derive(Clone, Copy, Debug, PartialEq, Eq, Structural)]
pub struct LweDimension(pub usize);

/// Number of elements of a full LWE ciphertext (mask plus one body).
#[derive(Clone, Copy, Debug, PartialEq, Eq, Structural)]
pub struct LweSize(pub usize);

/// Number of mask polynomials of a GLWE ciphertext.
#[derive(Clone, Copy, Debug, PartialEq, Eq, Structural)]
pub struct GlweDimension(pub usize);

/// Number of polynomials of a full GLWE ciphertext (mask plus one body).
#[derive(Clone, Copy, Debug, PartialEq, Eq, Structural)]
pub struct GlweSize(pub usize);

/// Number of coefficients of the polynomials of a GLWE ciphertext.
#[derive(Clone, Copy, Debug, PartialEq, Eq, Structural)]
pub struct PolynomialSize(pub usize);

/// Base-two logarithm of a reduced coefficient modulus, in `1..=64`.
#[derive(Clone, Copy, Debug, PartialEq, Eq, Structural)]
pub struct CiphertextModulusLog(pub usize);

/// Base-two logarithm of the base of a gadget decomposition.
#[derive(Clone, Copy, Debug, PartialEq, Eq, Structural)]
pub struct DecompositionBaseLog(pub usize);

/// Number of levels of a gadget decomposition.
#[derive(Clone, Copy, Debug, PartialEq, Eq, Structural)]
pub struct DecompositionLevelCount(pub usize);

/// Size of the message (payload) space of a scalar ciphertext.
#[derive(Clone, Copy, Debug, PartialEq, Eq, Structural)]
pub struct MessageModulus(pub usize);

/// Size of the carry (headroom) space of a scalar ciphertext.
#[derive(Clone, Copy, Debug, PartialEq, Eq, Structural)]
pub struct CarryModulus(pub usize);

/// Multiplicative factor by which homomorphic operations have grown the
/// noise of a ciphertext since its last refresh.
#[derive(Clone, Copy, Debug, PartialEq, Eq, Structural)]
pub struct NoiseLevel(pub usize);

/// Largest plaintext value a ciphertext may currently hold.
#[derive(Clone, Copy, Debug, PartialEq, Eq, Structural)]
pub struct Degree(pub usize);

/// Number of input-key coefficients whose randomness differs from the
/// output key of a shrinking keyswitch key.
#[derive(Clone, Copy, Debug, PartialEq, Eq, Structural)]
pub struct SharedLweSecretKeyDifferingCoefCount(pub usize);

/// Number of input-key coefficients whose randomness the output key of a
/// shrinking keyswitch key shares.
#[derive(Clone, Copy, Debug, PartialEq, Eq, Structural)]
pub struct SharedLweSecretKeyCommonCoefCount(pub usize);

/// The coefficient modulus of ciphertexts: always the native 64-bit one.
#[derive(Clone, Copy, Debug, PartialEq, Eq, Structural)]
pub struct CiphertextModulus;

/// Order in which keyswitch and bootstrap are applied by the compute path.
#[derive(Clone, Copy, Debug, PartialEq, Eq, Structural)]
pub enum PBSOrder {
    KeyswitchBootstrap,
    BootstrapKeyswitch,
}

/// Which of the two client secret keys fresh ciphertexts are encrypted under.
#[derive(Clone, Copy, Debug, PartialEq, Eq, Structural)]
pub enum EncryptionKeyChoice {
    Big,
    Small,
}

/// A centred bounded-uniform noise distribution: samples are drawn uniformly
/// from `[-2^bound_log2, 2^bound_log2]`.
#[derive(Clone, Copy, Debug, PartialEq, Eq, Structural)]
pub struct DynamicDistribution {
    pub bound_log2: usize,
}

impl NoiseLevel {
    /// The level of a freshly bootstrapped ciphertext.
    pub fn nominal() -> (r: Self)
        ensures
            r.0 == 1,
    {
        NoiseLevel(1)
    }
}

impl CiphertextModulus {
    pub fn new_native() -> (r: Self)
        ensures
            r == (CiphertextModulus),
    {
        CiphertextModulus
    }
}

impl LweDimension {
    pub fn to_lwe_size(self) -> (r: LweSize)
        requires
            self.0 < usize::MAX,
        ensures
            r.0 == self.0 + 1,
    {
        LweSize(self.0 + 1)
    }
}

impl LweSize {
    pub fn to_lwe_dimension(self) -> (r: LweDimension)
        requires
            self.0 >= 1,
        ensures
            r.0 == self.0 - 1,
    {
        LweDimension(self.0 - 1)
    }
}

impl GlweDimension {
    pub fn to_glwe_size(self) -> (r: GlweSize)
        requires
            self.0 < usize::MAX,
        ensures
            r.0 == self.0 + 1,
    {
        GlweSize(self.0 + 1)
    }

    /// Dimension of the LWE key obtained by flattening a GLWE key of this
    /// dimension over polynomials of size `polynomial_size`.
    pub fn to_equivalent_lwe_dimension(self, polynomial_size: PolynomialSize) -> (r: LweDimension)
        requires
            self.0 * polynomial_size.0 <= usize::MAX,
        ensures
            r.0 == self.0 * polynomial_size.0,
    {
        LweDimension(self.0 * polynomial_size.0)
    }
}

impl GlweSize {
    pub fn to_glwe_dimension(self) -> (r: GlweDimension)
        requires
            self.0 >= 1,
        ensures
            r.0 == self.0 - 1,
    {
        GlweDimension(self.0 - 1)
    }
}

impl PolynomialSize {
    /// `log2` of twice the polynomial size: the modulus a ciphertext is
    /// switched to before a blind rotation over polynomials of this size,
    /// since a rotation distinguishes exactly `2 * size` monomial degrees.
    pub fn to_blind_rotation_input_modulus_log(self) -> (r: CiphertextModulusLog)
        requires
            is_power_of_two(self.0 as int),
            self.0 >= 1,
            self.0 < usize::MAX / 2,
            self.0 <= 0x4000_0000_0000_0000,
        ensures
            1 <= r.0 <= 63,
            pow2_int(r.0 as int) == 2 * self.0,
    {
        let mut log: usize = 0;
        let mut value: usize = 1;
        while value < self.0
            invariant
                pow2_int(log as int) == value,
                1 <= value <= self.0,
                is_power_of_two(self.0 as int),
                self.0 < usize::MAX / 2,
                log < 64,
            decreases self.0 - value,
        {
            proof {
                lemma_pow_of_two_reached(self.0 as int, log as int);
            }
            value = value * 2;
            log = log + 1;
        }
        proof {
            if log >= 63 {
                lemma_pow2_int_agrees(log as int);
                vstd::arithmetic::power2::lemma2_to64_rest();
                if log > 63 {
                    vstd::arithmetic::power2::lemma_pow2_strictly_increases(63, log as nat);
                }
                assert(false);
            }
        }
        CiphertextModulusLog(log + 1)
    }
}

/// The parameters of a classic (non multi-bit) keyswitch-then-bootstrap
/// scheme instance.
#[derive(Clone, Copy, Debug, PartialEq, Eq, Structural)]
pub struct ClassicPBSParameters {
    pub lwe_dimension: LweDimension,
    pub glwe_dimension: GlweDimension,
    pub polynomial_size: PolynomialSize,
    pub lwe_noise_distribution: DynamicDistribution,
    pub glwe_noise_distribution: DynamicDistribution,
    pub pbs_base_log: DecompositionBaseLog,
    pub pbs_level: DecompositionLevelCount,
    pub ks_base_log: DecompositionBaseLog,
    pub ks_level: DecompositionLevelCount,
    pub message_modulus: MessageModulus,
    pub carry_modulus: CarryModulus,
    pub ciphertext_modulus: CiphertextModulus,
    pub encryption_key_choice: EncryptionKeyChoice,
}

impl ClassicPBSParameters {
    /// The structural constraints every usable parameter set meets.
    pub open spec fn wf(&self) -> bool {
        &&& is_power_of_two(self.polynomial_size.0 as int)
        &&& 2 <= self.polynomial_size.0 <= 0x10_0000
        &&& 1 <= self.glwe_dimension.0
        &&& self.glwe_dimension.0 + 1 <= 8
        &&& (self.glwe_dimension.0 as int) * (self.polynomial_size.0 as int) <= 0x10_0000
        &&& 1 <= self.lwe_dimension.0 <= 0x10_0000
        &&& 1 <= self.message_modulus.0
        &&& 1 <= self.carry_modulus.0
        &&& (self.message_modulus.0 as int) * (self.carry_modulus.0 as int)
            <= self.polynomial_size.0
        &&& (self.polynomial_size.0 as int) % ((self.message_modulus.0 as int)
            * (self.carry_modulus.0 as int)) == 0
        &&& (self.message_modulus.0 as int) * (self.carry_modulus.0 as int) <= 0x8000_0000
        &&& self.lwe_noise_distribution.bound_log2 < 63
        &&& self.glwe_noise_distribution.bound_log2 < 63
    }
}

/// Parameters of a multi-bit bootstrap scheme instance; such sets exist
/// only to be rejected by this engine.
#[derive(Clone, Copy, Debug, PartialEq, Eq, Structural)]
pub struct MultiBitPBSParameters {
    pub base: ClassicPBSParameters,
    pub grouping_factor: usize,
}

/// Either flavour of bootstrap parameters.
#[derive(Clone, Copy, Debug, PartialEq, Eq, Structural)]
pub enum PBSParameters {
    PBS(ClassicPBSParameters),
    MultiBitPBS(MultiBitPBSParameters),
}

/// Parameters of the circuit-bootstrapping based function evaluation path.
#[derive(Clone, Copy, Debug, PartialEq, Eq, Structural)]
pub struct WopbsParameters {
    pub message_modulus: MessageModulus,
    pub carry_modulus: CarryModulus,
}

/// The parameter set a shortint client key is built from.
#[derive(Clone, Copy, Debug, PartialEq, Eq, Structural)]
pub struct ShortintParameterSet {
    pub pbs_params: PBSParameters,
}

impl ShortintParameterSet {
    pub fn pbs_parameters(&self) -> (r: Option<PBSParameters>)
        ensures
            r == Some(self.pbs_params),
    {
        Some(self.pbs_params)
    }

    pub fn message_modulus(&self) -> (r: MessageModulus)
        ensures
            r == match self.pbs_params {
                PBSParameters::PBS(p) => p.message_modulus,
                PBSParameters::MultiBitPBS(p) => p.base.message_modulus,
            },
    {
        match self.pbs_params {
            PBSParameters::PBS(p) => p.message_modulus,
            PBSParameters::MultiBitPBS(p) => p.base.message_modulus,
        }
    }

    pub fn carry_modulus(&self) -> (r: CarryModulus)
        ensures
            r == match self.pbs_params {
                PBSParameters::PBS(p) => p.carry_modulus,
                PBSParameters::MultiBitPBS(p) => p.base.carry_modulus,
            },
    {
        match self.pbs_params {
            PBSParameters::PBS(p) => p.carry_modulus,
            PBSParameters::MultiBitPBS(p) => p.base.carry_modulus,
        }
    }

    pub fn ciphertext_modulus(&self) -> (r: CiphertextModulus)
        ensures
            r == (CiphertextModulus),
    {
        CiphertextModulus
    }

    pub fn glwe_noise_distribution(&self) -> (r: DynamicDistribution)
        ensures
            r == match self.pbs_params {
                PBSParameters::PBS(p) => p.glwe_noise_distribution,
                PBSParameters::MultiBitPBS(p) => p.base.glwe_noise_distribution,
            },
    {
        match self.pbs_params {
            PBSParameters::PBS(p) => p.glwe_noise_distribution,
            PBSParameters::MultiBitPBS(p) => p.base.glwe_noise_distribution,
        }
    }
}

/// The parameters a persisted ciphertext artifact is checked against
/// before use: the coefficient modulus, the plaintext space, and the
/// compute order it must match.
#[derive(Clone, Copy, Debug, PartialEq, Eq, Structural)]
pub struct CiphertextConformanceParams {
    pub ct_modulus: CiphertextModulus,
    pub message_modulus: MessageModulus,
    pub carry_modulus: CarryModulus,
    pub pbs_order: PBSOrder,
}

/// Configuration of the compression engine: decomposition shapes of the
/// two derived keys, the packing output shape, how many scalar
/// ciphertexts one GLWE absorbs, and the packing key noise.
#[derive(Clone, Copy, Debug, PartialEq, Eq, Structural)]
pub struct CompressionParameters {
    pub br_level: DecompositionLevelCount,
    pub br_base_log: DecompositionBaseLog,
    pub packing_ks_level: DecompositionLevelCount,
    pub packing_ks_base_log: DecompositionBaseLog,
    pub packing_ks_polynomial_size: PolynomialSize,
    pub packing_ks_glwe_dimension: GlweDimension,
    pub lwe_per_glwe: usize,
    pub packing_ks_key_noise_distribution: DynamicDistribution,
}

impl CompressionParameters {
    pub open spec fn wf(&self) -> bool {
        &&& 1 <= self.br_level.0 <= 8
        &&& 1 <= self.br_base_log.0 <= 63
        &&& (self.br_base_log.0 as int) * (self.br_level.0 as int) <= 64
        &&& 1 <= self.packing_ks_level.0 <= 16
        &&& 1 <= self.packing_ks_base_log.0 <= 63
        &&& (self.packing_ks_base_log.0 as int) * (self.packing_ks_level.0 as int) <= 64
        &&& 1 <= self.packing_ks_glwe_dimension.0
        &&& self.packing_ks_glwe_dimension.0 + 1 <= 8
        &&& 1 <= self.packing_ks_polynomial_size.0 <= 0x10_0000
        &&& (self.packing_ks_glwe_dimension.0 as int)
            * (self.packing_ks_polynomial_size.0 as int) <= 0x10_0000
        &&& 1 <= self.lwe_per_glwe <= self.packing_ks_polynomial_size.0
        &&& self.packing_ks_key_noise_distribution.bound_log2 < 63
    }
}

/// Parameters a ciphertext is expected to satisfy after a programmable
/// bootstrap through a decompression key.
#[derive(Clone, Copy, Debug, PartialEq, Eq, Structural)]
pub struct PostPbsParmeters {
    pub br_glwe_dimension: GlweDimension,
    pub br_polynomial_size: PolynomialSize,
    pub lwe_dimension: LweDimension,
    pub ks_key_noise_distribution: DynamicDistribution,
    pub ks_base_log: DecompositionBaseLog,
    pub ks_level: DecompositionLevelCount,
    pub pbs_base_log: DecompositionBaseLog,
    pub pbs_level: DecompositionLevelCount,
    pub br_key_noise_distribution: DynamicDistribution,
}

/// The scheme instance with two message bits and two carry bits under the
/// keyswitch-then-bootstrap order, at this engine's reduced dimensions.
pub fn param_message_2_carry_2_ks_pbs() -> (r: ClassicPBSParameters)
    ensures
        r.wf(),
        r == spec_default_big_params(),
        r.message_modulus.0 == 4,
        r.carry_modulus.0 == 4,
        r.encryption_key_choice == EncryptionKeyChoice::Big,
        r.polynomial_size.0 == 128,
        r.glwe_dimension.0 == 1,
{
    let r = ClassicPBSParameters {
        lwe_dimension: LweDimension(32),
        glwe_dimension: GlweDimension(1),
        polynomial_size: PolynomialSize(128),
        lwe_noise_distribution: DynamicDistribution { bound_log2: 4 },
        glwe_noise_distribution: DynamicDistribution { bound_log2: 4 },
        pbs_base_log: DecompositionBaseLog(23),
        pbs_level: DecompositionLevelCount(1),
        ks_base_log: DecompositionBaseLog(5),
        ks_level: DecompositionLevelCount(3),
        message_modulus: MessageModulus(4),
        carry_modulus: CarryModulus(4),
        ciphertext_modulus: CiphertextModulus,
        encryption_key_choice: EncryptionKeyChoice::Big,
    };
    proof {
        lemma_small_powers_of_two();
        assert(is_power_of_two(128)) by {
            assert(pow2_int(7) == 128) by {
                lemma_pow2_int_agrees(7);
                vstd::arithmetic::power2::lemma2_to64();
            }
        }
    }
    r
}

/// The value `param_message_2_carry_2_ks_pbs` returns.
pub open spec fn spec_default_big_params() -> ClassicPBSParameters {
    ClassicPBSParameters {
        lwe_dimension: LweDimension(32),
        glwe_dimension: GlweDimension(1),
        polynomial_size: PolynomialSize(128),
        lwe_noise_distribution: DynamicDistribution { bound_log2: 4 },
        glwe_noise_distribution: DynamicDistribution { bound_log2: 4 },
        pbs_base_log: DecompositionBaseLog(23),
        pbs_level: DecompositionLevelCount(1),
        ks_base_log: DecompositionBaseLog(5),
        ks_level: DecompositionLevelCount(3),
        message_modulus: MessageModulus(4),
        carry_modulus: CarryModulus(4),
        ciphertext_modulus: CiphertextModulus,
        encryption_key_choice: EncryptionKeyChoice::Big,
    }
}

/// The same scheme instance under the bootstrap-then-keyswitch order,
/// encrypting under the small key.
pub fn param_message_2_carry_2_pbs_ks() -> (r: ClassicPBSParameters)
    ensures
        r.wf(),
        r.message_modulus.0 == 4,
        r.carry_modulus.0 == 4,
        r.encryption_key_choice == EncryptionKeyChoice::Small,
{
    let mut r = param_message_2_carry_2_ks_pbs();
    r.encryption_key_choice = EncryptionKeyChoice::Small;
    r
}

/// The value `wopbs_param_message_2_carry_2_ks_pbs` returns.
pub open spec fn spec_default_wopbs_params() -> WopbsParameters {
    WopbsParameters { message_modulus: MessageModulus(4), carry_modulus: CarryModulus(4) }
}

/// Function-evaluation parameters matched to the two-bit message, two-bit
/// carry scheme instance.
pub fn wopbs_param_message_2_carry_2_ks_pbs() -> (r: WopbsParameters)
    ensures
        r == spec_default_wopbs_params(),
{
    WopbsParameters { message_modulus: MessageModulus(4), carry_modulus: CarryModulus(4) }
}

/// The compression configuration matched to the two-bit message, two-bit
/// carry scheme instance above.
pub fn comp_params_for_message_2_carry_2_ks_pbs() -> (r: CompressionParameters)
    ensures
        r.wf(),
        r.lwe_per_glwe == 16,
        r.packing_ks_polynomial_size.0 == 16,
        r.packing_ks_glwe_dimension.0 == 1,
{
    CompressionParameters {
        br_level: DecompositionLevelCount(1),
        br_base_log: DecompositionBaseLog(25),
        packing_ks_level: DecompositionLevelCount(2),
        packing_ks_base_log: DecompositionBaseLog(8),
        packing_ks_polynomial_size: PolynomialSize(16),
        packing_ks_glwe_dimension: GlweDimension(1),
        lwe_per_glwe: 16,
        packing_ks_key_noise_distribution: DynamicDistribution { bound_log2: 4 },
    }
}

/// Concrete power-of-two facts the parameter constructors rely on.
proof fn lemma_small_powers_of_two()
    ensures
        pow2_int(4) == 16,
        pow2_int(7) == 128,
{
    lemma_pow2_int_agrees(4);
    lemma_pow2_int_agrees(7);
    vstd::arithmetic::power2::lemma2_to64();
}

/// `2^k` over the integers.
pub open spec fn pow2_int(k: int) -> int
    decreases k,
{
    if k <= 0 {
        1
    } else {
        2 * pow2_int(k - 1)
    }
}

/// Whether `n` is an exact power of two.
pub open spec fn is_power_of_two(n: int) -> bool {
    exists|k: int| 0 <= k < 64 && n == pow2_int(k)
}

/// The blind-rotation input modulus log of a polynomial size: the unique
/// `l` in `[1, 63]` with `2^l == 2 * n`, when one exists.
pub open spec fn spec_blind_rotation_log(n: int) -> int {
    choose|l: int| 1 <= l <= 63 && pow2_int(l) == 2 * n
}

/// Any witness of the blind-rotation log equation is the chosen one.
pub proof fn lemma_blind_rotation_log_unique(n: int, l: int)
    requires
        1 <= l <= 63,
        pow2_int(l) == 2 * n,
    ensures
        spec_blind_rotation_log(n) == l,
{
    assert(1 <= l <= 63 && pow2_int(l) == 2 * n);
    let l2 = spec_blind_rotation_log(n);
    assert(1 <= l2 <= 63 && pow2_int(l2) == 2 * n) by {
        assert(exists|x: int| 1 <= x <= 63 && pow2_int(x) == 2 * n);
    }
    lemma_pow2_int_grows(l, l2);
    lemma_pow2_int_grows(l2, l);
}

/// If `n` is a power of two and `2^log < n`, then `2^(log+1)` still does not
/// exceed `n`; in either case `log` stays below the word width.
proof fn lemma_pow_of_two_reached(n: int, log: int)
    requires
        is_power_of_two(n),
        0 <= log,
        pow2_int(log) <= n,
    ensures
        pow2_int(log) < n ==> pow2_int(log + 1) <= n,
        pow2_int(log) < n ==> log + 1 < 64,
        log < 64,
{
    let k = choose|k: int| 0 <= k < 64 && n == pow2_int(k);
    lemma_pow2_int_grows(log, k);
    lemma_pow2_int_grows(k, log);
    if pow2_int(log) < n {
        assert(log < k);
    } else {
        assert(log <= k);
    }
}

/// `pow2_int` agrees with the library power-of-two function.
pub proof fn lemma_pow2_int_agrees(l: int)
    requires
        0 <= l,
    ensures
        pow2_int(l) == vstd::arithmetic::power2::pow2(l as nat),
    decreases l,
{
    if l == 0 {
        vstd::arithmetic::power2::lemma2_to64();
    } else {
        lemma_pow2_int_agrees(l - 1);
        vstd::arithmetic::power2::lemma_pow2_unfold(l as nat);
    }
}

/// `2^a` is positive.
pub(crate) proof fn lemma_pow2_int_pos(a: int)
    ensures
        pow2_int(a) >= 1,
    decreases a,
{
    if a > 0 {
        lemma_pow2_int_pos(a - 1);
    }
}

/// `2^a` is positive, monotone in `a`, and doubles with each step.
pub(crate) proof fn lemma_pow2_int_grows(a: int, b: int)
    requires
        0 <= a,
        0 <= b,
    ensures
        pow2_int(a) >= 1,
        a <= b ==> pow2_int(a) <= pow2_int(b),
        a < b ==> 2 * pow2_int(a) <= pow2_int(b),
    decreases b,
{
    lemma_pow2_int_pos(a);
    if b > 0 {
        if 0 < a {
            lemma_pow2_int_grows(a - 1, b - 1);
        } else {
            lemma_pow2_int_grows(a, b - 1);
        }
    }
}

} // verus!
