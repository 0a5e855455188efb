//! The shortint client: scalar ciphertexts, the client secret keys, and
//! the encrypt and decrypt operations over the message-and-carry encoding.
//!
//! Every random choice flows through an explicitly passed engine, so key
//! material derived from the same seed is reproducible.

use vstd::prelude::*;

use crate::entities::{
    allocate_and_generate_new_binary_glwe_secret_key, decrypt_lwe, encrypt_lwe, GlweSecretKey,
    LweCiphertext, LweSecretKey,
};
use crate::parameters::{
    CarryModulus, ClassicPBSParameters, Degree, MessageModulus, NoiseLevel, PBSOrder,
    PBSParameters, ShortintParameterSet,
};
use crate::random::RandomSource;

verus! {

/// The engine holding the randomness source every key generation and
/// encryption draws from; passed explicitly instead of living in ambient
/// thread-local state so that parallel callers stay independent.
pub struct ShortintEngine {
    pub source: RandomSource,
}

impl ShortintEngine {
    /// An engine whose whole future random stream is fixed by `seed`.
    pub fn new_from_seed(seed: u128) -> Self {
        ShortintEngine { source: RandomSource::new(seed) }
    }
}

/// One scalar ciphertext with its plaintext-space bookkeeping.
pub struct Ciphertext {
    pub ct: LweCiphertext,
    pub degree: Degree,
    pub noise_level: NoiseLevel,
    pub message_modulus: MessageModulus,
    pub carry_modulus: CarryModulus,
    pub pbs_order: PBSOrder,
}

impl Ciphertext {
    pub open spec fn wf(&self) -> bool {
        &&& self.ct.wf()
        &&& 1 <= self.message_modulus.0
        &&& 1 <= self.carry_modulus.0
    }

    pub fn new(
        ct: LweCiphertext,
        degree: Degree,
        noise_level: NoiseLevel,
        message_modulus: MessageModulus,
        carry_modulus: CarryModulus,
        pbs_order: PBSOrder,
    ) -> (r: Self)
        requires
            ct.wf(),
            1 <= message_modulus.0,
            1 <= carry_modulus.0,
        ensures
            r.wf(),
            r.ct == ct,
            r.degree == degree,
            r.noise_level == noise_level,
            r.message_modulus == message_modulus,
            r.carry_modulus == carry_modulus,
            r.pbs_order == pbs_order,
    {
        Ciphertext { ct, degree, noise_level, message_modulus, carry_modulus, pbs_order }
    }

    /// Whether no carry bits are pending: the held plaintext still fits
    /// the message space.
    pub fn carry_is_empty(&self) -> (r: bool)
        ensures
            r == (self.degree.0 < self.message_modulus.0),
    {
        self.degree.0 < self.message_modulus.0
    }
}

/// Multiplies the ciphertext by a small clear scalar without any check of
/// the remaining carry space: every torus element, the degree and the
/// noise level are scaled.
pub fn unchecked_scalar_mul_assign(ct: &mut Ciphertext, scalar: u8)
    requires
        old(ct).wf(),
        old(ct).degree.0 * (scalar as usize) <= 0x10_0000,
        old(ct).noise_level.0 * (scalar as usize) <= 0x10_0000,
    ensures
        final(ct).wf(),
        final(ct).ct.data@.len() == old(ct).ct.data@.len(),
        final(ct).degree.0 == old(ct).degree.0 * (scalar as usize),
        final(ct).noise_level.0 == old(ct).noise_level.0 * (scalar as usize),
        final(ct).message_modulus == old(ct).message_modulus,
        final(ct).carry_modulus == old(ct).carry_modulus,
        final(ct).pbs_order == old(ct).pbs_order,
        forall|k: int|
            0 <= k < final(ct).ct.data@.len() ==> final(ct).ct.data@[k] == old(
                ct,
            ).ct.data@[k].wrapping_mul(scalar as u64),
{
    let len = ct.ct.data.len();
    let mut k: usize = 0;
    while k < len
        invariant
            k <= len,
            ct.ct.data@.len() == len,
            ct.ct.wf(),
            ct.degree == old(ct).degree,
            ct.noise_level == old(ct).noise_level,
            ct.message_modulus == old(ct).message_modulus,
            ct.carry_modulus == old(ct).carry_modulus,
            ct.pbs_order == old(ct).pbs_order,
            old(ct).wf(),
            len >= 1,
            forall|k2: int|
                0 <= k2 < k ==> ct.ct.data@[k2] == old(ct).ct.data@[k2].wrapping_mul(
                    scalar as u64,
                ),
            forall|k2: int| k <= k2 < len ==> #[trigger] ct.ct.data@[k2] == old(ct).ct.data@[k2],
        decreases len - k,
    {
        let value = ct.ct.data[k].wrapping_mul(scalar as u64);
        ct.ct.data[k] = value;
        k += 1;
    }
    ct.degree = Degree(ct.degree.0 * (scalar as usize));
    ct.noise_level = NoiseLevel(ct.noise_level.0 * (scalar as usize));
}

/// An element-for-element copy of a ciphertext.
pub fn clone_ciphertext(src: &Ciphertext) -> (r: Ciphertext)
    requires
        src.wf(),
    ensures
        r.wf(),
        r.ct.data@ =~= src.ct.data@,
        r.degree == src.degree,
        r.noise_level == src.noise_level,
        r.message_modulus == src.message_modulus,
        r.carry_modulus == src.carry_modulus,
        r.pbs_order == src.pbs_order,
{
    let len = src.ct.data.len();
    let mut data: Vec<u64> = Vec::new();
    let mut k: usize = 0;
    while k < len
        invariant
            k <= len,
            len == src.ct.data.len(),
            data@.len() == k,
            forall|k2: int| 0 <= k2 < k ==> data@[k2] == src.ct.data@[k2],
        decreases len - k,
    {
        data.push(src.ct.data[k]);
        k += 1;
    }
    Ciphertext {
        ct: LweCiphertext { data, ciphertext_modulus: src.ct.ciphertext_modulus },
        degree: src.degree,
        noise_level: src.noise_level,
        message_modulus: src.message_modulus,
        carry_modulus: src.carry_modulus,
        pbs_order: src.pbs_order,
    }
}

/// The client's secret keys and the parameter set they were drawn for.
pub struct ClientKey {
    pub glwe_secret_key: GlweSecretKey,
    pub lwe_secret_key: LweSecretKey,
    pub parameters: ShortintParameterSet,
}

/// A server-side evaluation key; this engine only carries the plaintext
/// space bookkeeping of the compute path.
pub struct ServerKey {
    pub message_modulus: MessageModulus,
    pub carry_modulus: CarryModulus,
}

impl ServerKey {
    pub fn message_modulus(&self) -> (r: MessageModulus)
        ensures
            r == self.message_modulus,
    {
        self.message_modulus
    }
}

impl ClientKey {
    /// The structural invariant tying the key material to the parameters.
    pub open spec fn wf(&self) -> bool {
        &&& self.glwe_secret_key.wf()
        &&& self.lwe_secret_key.wf()
        &&& match self.parameters.pbs_params {
            PBSParameters::PBS(p) => {
                &&& p.wf()
                &&& self.glwe_secret_key.polynomial_size == p.polynomial_size
                &&& self.glwe_secret_key.glwe_dimension_spec() == p.glwe_dimension.0
                &&& self.lwe_secret_key.lwe_dimension_spec() == p.lwe_dimension.0
            },
            PBSParameters::MultiBitPBS(_) => false,
        }
    }

    /// The classic parameter set of this key.
    pub open spec fn classic_parameters(&self) -> ClassicPBSParameters {
        match self.parameters.pbs_params {
            PBSParameters::PBS(p) => p,
            PBSParameters::MultiBitPBS(p) => p.base,
        }
    }

    /// The message space size of the key's classic parameter set.
    pub fn classic_message_modulus(&self) -> (r: usize)
        requires
            self.wf(),
        ensures
            r == self.classic_parameters().message_modulus.0,
            1 <= r <= 0x8000_0000,
    {
        let params = match self.parameters.pbs_params {
            PBSParameters::PBS(p) => p,
            PBSParameters::MultiBitPBS(p) => {
                proof {
                    assert(false);
                }
                p.base
            },
        };
        proof {
            assert((params.message_modulus.0 as int) <= (params.message_modulus.0 as int) * (
            params.carry_modulus.0 as int)) by (nonlinear_arith)
                requires
                    1 <= params.message_modulus.0,
                    1 <= params.carry_modulus.0,
            ;
        }
        params.message_modulus.0
    }

    /// The large LWE key: the GLWE key flattened, the key fresh
    /// ciphertexts are encrypted under when the key choice is the big one.
    pub fn large_lwe_secret_key(&self) -> (r: LweSecretKey)
        requires
            self.wf(),
        ensures
            r.wf(),
            r.data@ == self.glwe_secret_key.data@,
            r.lwe_dimension_spec() == self.classic_parameters().glwe_dimension.0
                * self.classic_parameters().polynomial_size.0,
    {
        proof {
            vstd::arithmetic::div_mod::lemma_fundamental_div_mod(
                self.glwe_secret_key.data@.len() as int,
                self.glwe_secret_key.polynomial_size.0 as int,
            );
            vstd::arithmetic::mul::lemma_mul_is_commutative(
                self.glwe_secret_key.polynomial_size.0 as int,
                self.glwe_secret_key.glwe_dimension_spec(),
            );
        }
        self.glwe_secret_key.as_lwe_secret_key()
    }

    /// Generates a fresh client key for `parameters`.
    pub fn new(parameters: ClassicPBSParameters, engine: &mut ShortintEngine) -> (r: ClientKey)
        requires
            parameters.wf(),
        ensures
            r.wf(),
            r.parameters.pbs_params == PBSParameters::PBS(parameters),
    {
        let glwe_secret_key = allocate_and_generate_new_binary_glwe_secret_key(
            parameters.glwe_dimension,
            parameters.polynomial_size,
            &mut engine.source,
        );
        let mut small_key_data: Vec<u64> = Vec::new();
        while small_key_data.len() < parameters.lwe_dimension.0
            invariant
                small_key_data@.len() <= parameters.lwe_dimension.0,
                forall|k: int|
                    0 <= k < small_key_data@.len() ==> (small_key_data@[k] == 0u64
                        || small_key_data@[k] == 1u64),
            decreases parameters.lwe_dimension.0 - small_key_data@.len(),
        {
            let bit = engine.source.random_binary();
            small_key_data.push(bit);
        }
        ClientKey {
            glwe_secret_key,
            lwe_secret_key: LweSecretKey { data: small_key_data },
            parameters: ShortintParameterSet { pbs_params: PBSParameters::PBS(parameters) },
        }
    }

    /// Encrypts `message` (reduced into the message space) as a fresh
    /// ciphertext with empty carry and nominal noise.
    pub fn encrypt(&self, message: u64, engine: &mut ShortintEngine) -> (r: Ciphertext)
        requires
            self.wf(),
        ensures
            r.wf(),
            r.ct.lwe_size_spec() == self.classic_parameters().glwe_dimension.0
                * self.classic_parameters().polynomial_size.0 + 1,
            r.message_modulus == self.classic_parameters().message_modulus,
            r.carry_modulus == self.classic_parameters().carry_modulus,
            r.degree.0 == self.classic_parameters().message_modulus.0 - 1,
            r.noise_level.0 == 1,
            r.pbs_order == PBSOrder::KeyswitchBootstrap,
    {
        let params = match self.parameters.pbs_params {
            PBSParameters::PBS(p) => p,
            PBSParameters::MultiBitPBS(p) => {
                proof {
                    assert(false);
                }
                p.base
            },
        };
        let message_modulus = params.message_modulus;
        let carry_modulus = params.carry_modulus;
        proof {
            lemma_plaintext_space_fits(message_modulus.0 as int, carry_modulus.0 as int);
        }
        let plaintext_space = (message_modulus.0 * carry_modulus.0) as u64;
        let delta: u64 = (1u64 << 63) / plaintext_space;
        let reduced = message % (message_modulus.0 as u64);
        let plaintext = reduced.wrapping_mul(delta);
        let big_key = self.large_lwe_secret_key();
        let ct = encrypt_lwe(
            &big_key,
            plaintext,
            params.glwe_noise_distribution.bound_log2,
            &mut engine.source,
        );
        Ciphertext {
            ct,
            degree: Degree(message_modulus.0 - 1),
            noise_level: NoiseLevel(1),
            message_modulus,
            carry_modulus,
            pbs_order: PBSOrder::KeyswitchBootstrap,
        }
    }

    /// Decrypts the full message-and-carry content of a ciphertext
    /// encrypted under the large key: the phase rounded to the nearest
    /// plaintext, reduced modulo the whole plaintext space.
    pub fn decrypt_message_and_carry(&self, ct: &Ciphertext) -> (r: u64)
        requires
            self.wf(),
            ct.wf(),
            ct.ct.lwe_size_spec() == self.classic_parameters().glwe_dimension.0
                * self.classic_parameters().polynomial_size.0 + 1,
            ct.message_modulus == self.classic_parameters().message_modulus,
            ct.carry_modulus == self.classic_parameters().carry_modulus,
        ensures
            r < ct.message_modulus.0 * ct.carry_modulus.0,
    {
        let params = match self.parameters.pbs_params {
            PBSParameters::PBS(p) => p,
            PBSParameters::MultiBitPBS(p) => {
                proof {
                    assert(false);
                }
                p.base
            },
        };
        let message_modulus = params.message_modulus;
        let carry_modulus = params.carry_modulus;
        proof {
            lemma_plaintext_space_fits(message_modulus.0 as int, carry_modulus.0 as int);
        }
        let plaintext_space = (message_modulus.0 * carry_modulus.0) as u64;
        let delta: u64 = (1u64 << 63) / plaintext_space;
        let big_key = self.large_lwe_secret_key();
        let phase = decrypt_lwe(&big_key, &ct.ct);
        proof {
            let ps = plaintext_space;
            assert(1 <= ps <= 0x8000_0000 ==> ((1u64 << 63) / ps) >= 1) by (bit_vector);
        }
        let half = delta / 2;
        let rounded = phase.wrapping_add(half);
        (rounded / delta) % plaintext_space
    }
}

/// The plaintext space products stay within comfortable machine bounds.
proof fn lemma_plaintext_space_fits(mm: int, cm: int)
    by (nonlinear_arith)
    requires
        1 <= mm,
        1 <= cm,
        mm * cm <= 0x8000_0000,
    ensures
        1 <= mm * cm <= 0x8000_0000,
{
}

/// Generates a matched pair of client and server keys.
pub fn gen_keys(parameters: ClassicPBSParameters, engine: &mut ShortintEngine) -> (r: (
    ClientKey,
    ServerKey,
))
    requires
        parameters.wf(),
    ensures
        r.0.wf(),
        r.0.parameters.pbs_params == PBSParameters::PBS(parameters),
        r.1.message_modulus == parameters.message_modulus,
        r.1.carry_modulus == parameters.carry_modulus,
{
    let cks = ClientKey::new(parameters, engine);
    let sks = ServerKey {
        message_modulus: parameters.message_modulus,
        carry_modulus: parameters.carry_modulus,
    };
    (cks, sks)
}

} // verus!
