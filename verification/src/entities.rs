//! LWE and GLWE ciphertexts and secret keys over the native 64-bit modulus,
//! with binary key generation and the basic encrypt and decrypt operations
//! used by the engine and its tests.

use vstd::prelude::*;

use crate::parameters::{
    CiphertextModulus, GlweDimension, GlweSize, LweDimension, LweSize, PolynomialSize,
};
use crate::polynomial::{negacyclic_partial, poly_mul_acc};
use crate::random::{csprng_word, noise_from_word, RandomSource};

verus! {

/// An LWE ciphertext: `lwe_size - 1` mask elements followed by the body.
pub struct LweCiphertext {
    pub data: Vec<u64>,
    pub ciphertext_modulus: CiphertextModulus,
}

impl LweCiphertext {
    pub open spec fn wf(&self) -> bool {
        self.data@.len() >= 1
    }

    pub open spec fn lwe_size_spec(&self) -> int {
        self.data@.len() as int
    }

    pub fn new(fill_with: u64, lwe_size: LweSize, ciphertext_modulus: CiphertextModulus) -> (r:
        Self)
        requires
            lwe_size.0 >= 1,
        ensures
            r.wf(),
            r.lwe_size_spec() == lwe_size.0,
            forall|k: int| 0 <= k < r.data@.len() ==> r.data@[k] == fill_with,
    {
        let mut data: Vec<u64> = Vec::new();
        while data.len() < lwe_size.0
            invariant
                data@.len() <= lwe_size.0,
                forall|k: int| 0 <= k < data@.len() ==> data@[k] == fill_with,
            decreases lwe_size.0 - data@.len(),
        {
            data.push(fill_with);
        }
        LweCiphertext { data, ciphertext_modulus }
    }

    pub fn from_container(container: Vec<u64>, ciphertext_modulus: CiphertextModulus) -> (r: Self)
        requires
            container@.len() >= 1,
        ensures
            r.wf(),
            r.data@ == container@,
    {
        LweCiphertext { data: container, ciphertext_modulus }
    }

    pub fn lwe_size(&self) -> (r: LweSize)
        ensures
            r.0 == self.lwe_size_spec(),
    {
        LweSize(self.data.len())
    }
}

/// A GLWE ciphertext: `glwe_size - 1` mask polynomials followed by the body
/// polynomial, all of `polynomial_size` coefficients, stored flat.
pub struct GlweCiphertext {
    pub data: Vec<u64>,
    pub polynomial_size: PolynomialSize,
    pub ciphertext_modulus: CiphertextModulus,
}

impl GlweCiphertext {
    pub open spec fn wf(&self) -> bool {
        &&& self.polynomial_size.0 >= 1
        &&& self.data@.len() >= self.polynomial_size.0
        &&& (self.data@.len() as int) % (self.polynomial_size.0 as int) == 0
    }

    pub open spec fn glwe_size_spec(&self) -> int {
        self.data@.len() as int / (self.polynomial_size.0 as int)
    }

    pub fn new(
        fill_with: u64,
        glwe_size: GlweSize,
        polynomial_size: PolynomialSize,
        ciphertext_modulus: CiphertextModulus,
    ) -> (r: Self)
        requires
            glwe_size.0 >= 1,
            polynomial_size.0 >= 1,
            glwe_size.0 * polynomial_size.0 <= usize::MAX,
        ensures
            r.wf(),
            r.polynomial_size == polynomial_size,
            r.glwe_size_spec() == glwe_size.0,
            r.data@.len() == glwe_size.0 * polynomial_size.0,
            forall|k: int| 0 <= k < r.data@.len() ==> r.data@[k] == fill_with,
    {
        proof {
            vstd::arithmetic::mul::lemma_mul_inequality(1, glwe_size.0 as int, polynomial_size.0 as int);
        }
        let total = glwe_size.0 * polynomial_size.0;
        let mut data: Vec<u64> = Vec::new();
        while data.len() < total
            invariant
                data@.len() <= total,
                forall|k: int| 0 <= k < data@.len() ==> data@[k] == fill_with,
            decreases total - data@.len(),
        {
            data.push(fill_with);
        }
        proof {
            vstd::arithmetic::div_mod::lemma_fundamental_div_mod_converse(
                total as int,
                polynomial_size.0 as int,
                glwe_size.0 as int,
                0,
            );
        }
        GlweCiphertext { data, polynomial_size, ciphertext_modulus }
    }

    pub fn glwe_size(&self) -> (r: GlweSize)
        requires
            self.wf(),
        ensures
            r.0 == self.glwe_size_spec(),
    {
        GlweSize(self.data.len() / self.polynomial_size.0)
    }
}

/// A list of LWE ciphertexts of a common size, stored flat.
pub struct LweCiphertextList {
    pub data: Vec<u64>,
    pub lwe_size: LweSize,
    pub ciphertext_modulus: CiphertextModulus,
}

impl LweCiphertextList {
    pub open spec fn wf(&self) -> bool {
        &&& self.lwe_size.0 >= 1
        &&& (self.data@.len() as int) % (self.lwe_size.0 as int) == 0
    }

    pub open spec fn count_spec(&self) -> int {
        self.data@.len() as int / (self.lwe_size.0 as int)
    }

    pub fn from_container(
        container: Vec<u64>,
        lwe_size: LweSize,
        ciphertext_modulus: CiphertextModulus,
    ) -> (r: Self)
        requires
            lwe_size.0 >= 1,
            (container@.len() as int) % (lwe_size.0 as int) == 0,
        ensures
            r.wf(),
            r.lwe_size == lwe_size,
            r.data@ == container@,
    {
        LweCiphertextList { data: container, lwe_size, ciphertext_modulus }
    }
}

/// A binary LWE secret key.
pub struct LweSecretKey {
    pub data: Vec<u64>,
}

impl LweSecretKey {
    pub open spec fn wf(&self) -> bool {
        forall|k: int| 0 <= k < self.data@.len() ==> (self.data@[k] == 0u64 || self.data@[k] == 1u64)
    }

    pub open spec fn lwe_dimension_spec(&self) -> int {
        self.data@.len() as int
    }

    pub fn lwe_dimension(&self) -> (r: LweDimension)
        ensures
            r.0 == self.lwe_dimension_spec(),
    {
        LweDimension(self.data.len())
    }
}

/// A binary GLWE secret key: `glwe_dimension` polynomials stored flat.
pub struct GlweSecretKey {
    pub data: Vec<u64>,
    pub polynomial_size: PolynomialSize,
}

impl GlweSecretKey {
    pub open spec fn wf(&self) -> bool {
        &&& self.polynomial_size.0 >= 1
        &&& (self.data@.len() as int) % (self.polynomial_size.0 as int) == 0
        &&& forall|k: int|
            0 <= k < self.data@.len() ==> (self.data@[k] == 0u64 || self.data@[k] == 1u64)
    }

    pub open spec fn glwe_dimension_spec(&self) -> int {
        self.data@.len() as int / (self.polynomial_size.0 as int)
    }

    pub fn glwe_dimension(&self) -> (r: GlweDimension)
        requires
            self.wf(),
        ensures
            r.0 == self.glwe_dimension_spec(),
    {
        GlweDimension(self.data.len() / self.polynomial_size.0)
    }

    /// The same key material read as a flat LWE key: coefficient `t` of
    /// polynomial `k` becomes element `k * polynomial_size + t`.
    pub fn as_lwe_secret_key(&self) -> (r: LweSecretKey)
        requires
            self.wf(),
        ensures
            r.wf(),
            r.data@ == self.data@,
    {
        LweSecretKey { data: self.data.clone() }
    }
}

/// Generates a fresh binary GLWE secret key of the requested shape: its
/// coefficients are the low bits of the source's next stream words.
pub fn allocate_and_generate_new_binary_glwe_secret_key(
    glwe_dimension: GlweDimension,
    polynomial_size: PolynomialSize,
    source: &mut RandomSource,
) -> (r: GlweSecretKey)
    requires
        polynomial_size.0 >= 1,
        glwe_dimension.0 * polynomial_size.0 <= usize::MAX,
    ensures
        r.wf(),
        r.polynomial_size == polynomial_size,
        r.data@.len() == glwe_dimension.0 * polynomial_size.0,
        r.glwe_dimension_spec() == glwe_dimension.0,
        final(source).seed_spec() == old(source).seed_spec(),
        final(source).drawn_spec() == old(source).drawn_spec() + glwe_dimension.0
            * polynomial_size.0,
        forall|k: int|
            0 <= k < r.data@.len() ==> r.data@[k] == (crate::random::csprng_word(
                old(source).seed_spec(),
                old(source).drawn_spec() + k,
            ) & 1),
{
    let total = glwe_dimension.0 * polynomial_size.0;
    let mut data: Vec<u64> = Vec::new();
    while data.len() < total
        invariant
            data@.len() <= total,
            forall|k: int| 0 <= k < data@.len() ==> (data@[k] == 0u64 || data@[k] == 1u64),
            source.seed_spec() == old(source).seed_spec(),
            source.drawn_spec() == old(source).drawn_spec() + data@.len(),
            forall|k: int|
                0 <= k < data@.len() ==> data@[k] == (crate::random::csprng_word(
                    old(source).seed_spec(),
                    old(source).drawn_spec() + k,
                ) & 1),
        decreases total - data@.len(),
    {
        let bit = source.random_binary();
        data.push(bit);
    }
    proof {
        vstd::arithmetic::div_mod::lemma_fundamental_div_mod_converse(
            total as int,
            polynomial_size.0 as int,
            glwe_dimension.0 as int,
            0,
        );
    }
    GlweSecretKey { data, polynomial_size }
}

/// The mask of a fresh encryption: `count` stream words starting at
/// stream position `first`.
pub open spec fn fresh_mask(seed: u128, first: int, count: int) -> Seq<u64> {
    Seq::new(count as nat, |k: int| csprng_word(seed, first + k))
}

/// Body coefficient `j` after accumulating the first `rows` mask rows:
/// the running value starts at `init` and each row adds its negacyclic
/// product with the matching key polynomial.
pub open spec fn glwe_body_fold(
    mask: Seq<u64>,
    key: Seq<u64>,
    n: int,
    rows: int,
    j: int,
    init: u64,
) -> u64
    decreases rows,
{
    if rows <= 0 {
        init
    } else {
        negacyclic_partial(
            mask,
            (rows - 1) * n,
            key,
            (rows - 1) * n,
            n,
            n,
            j,
            glwe_body_fold(mask, key, n, rows - 1, j, init),
        )
    }
}

/// The whole data vector of a fresh GLWE encryption of `message` under a
/// key with polynomials `key`, drawn from stream position `first`: the
/// mask words come straight off the stream, and each body coefficient is
/// the message plus a fresh noise term plus the mask-times-key products.
pub open spec fn encrypted_glwe_data(
    key: Seq<u64>,
    message: Seq<u64>,
    seed: u128,
    first: int,
    bound_log2: int,
    dim: int,
    n: int,
) -> Seq<u64> {
    fresh_mask(seed, first, dim * n) + Seq::new(
        n as nat,
        |j: int|
            glwe_body_fold(
                fresh_mask(seed, first, dim * n),
                key,
                n,
                dim,
                j,
                message[j].wrapping_add(
                    noise_from_word(csprng_word(seed, first + dim * n + j), bound_log2),
                ),
            ),
    )
}

/// Encrypts a message polynomial as a GLWE ciphertext under `sk`: a fresh
/// uniform mask, and a body holding `mask * key + message + noise`.
pub fn encrypt_glwe(
    sk: &GlweSecretKey,
    message: &Vec<u64>,
    noise_bound_log2: usize,
    source: &mut RandomSource,
) -> (r: GlweCiphertext)
    requires
        sk.wf(),
        sk.polynomial_size.0 <= 0x10_0000,
        message@.len() == sk.polynomial_size.0,
        noise_bound_log2 < 63,
        (sk.glwe_dimension_spec() + 1) * sk.polynomial_size.0 <= usize::MAX,
    ensures
        r.wf(),
        r.polynomial_size == sk.polynomial_size,
        r.glwe_size_spec() == sk.glwe_dimension_spec() + 1,
        r.data@.len() == (sk.glwe_dimension_spec() + 1) * sk.polynomial_size.0,
        final(source).seed_spec() == old(source).seed_spec(),
        final(source).drawn_spec() == old(source).drawn_spec() + sk.glwe_dimension_spec()
            * sk.polynomial_size.0 + sk.polynomial_size.0,
        r.data@ =~= encrypted_glwe_data(
            sk.data@,
            message@,
            old(source).seed_spec(),
            old(source).drawn_spec(),
            noise_bound_log2 as int,
            sk.glwe_dimension_spec(),
            sk.polynomial_size.0 as int,
        ),
{
    let n = sk.polynomial_size.0;
    let dim = sk.glwe_dimension();
    let mask_len = sk.data.len();
    proof {
        vstd::arithmetic::div_mod::lemma_fundamental_div_mod(sk.data@.len() as int, n as int);
        vstd::arithmetic::mul::lemma_mul_is_commutative(n as int, sk.glwe_dimension_spec());
    }
    let ghost seed0 = old(source).seed_spec();
    let ghost drawn0 = old(source).drawn_spec();
    let mut data = random_mask_vec(mask_len, source);
    proof {
        assert(data@ =~= fresh_mask(seed0, drawn0, mask_len as int));
    }
    let ghost mask = data@;
    let mut body: Vec<u64> = Vec::new();
    let mut t: usize = 0;
    while t < n
        invariant
            t <= n,
            n == sk.polynomial_size.0,
            message@.len() == n,
            noise_bound_log2 < 63,
            body@.len() == t,
            mask_len == sk.data.len(),
            source.seed_spec() == seed0,
            source.drawn_spec() == drawn0 + mask_len + t,
            forall|j: int|
                0 <= j < t ==> #[trigger] body@[j] == message@[j].wrapping_add(
                    noise_from_word(
                        csprng_word(seed0, drawn0 + mask_len + j),
                        noise_bound_log2 as int,
                    ),
                ),
        decreases n - t,
    {
        let noise = source.random_noise(noise_bound_log2);
        body.push(message[t].wrapping_add(noise));
        t += 1;
    }
    let mut k: usize = 0;
    while k < dim.0
        invariant
            n <= 0x10_0000,
            k <= dim.0,
            sk.wf(),
            dim.0 == sk.glwe_dimension_spec(),
            n == sk.polynomial_size.0,
            message@.len() == n,
            noise_bound_log2 < 63,
            data@ == mask,
            data@.len() == sk.data.len(),
            mask_len == sk.data.len(),
            dim.0 * n == sk.data.len(),
            body@.len() == n,
            forall|j: int|
                0 <= j < n ==> #[trigger] body@[j] == glwe_body_fold(
                    mask,
                    sk.data@,
                    n as int,
                    k as int,
                    j,
                    message@[j].wrapping_add(
                        noise_from_word(
                            csprng_word(seed0, drawn0 + mask_len + j),
                            noise_bound_log2 as int,
                        ),
                    ),
                ),
        decreases dim.0 - k,
    {
        proof {
            vstd::arithmetic::mul::lemma_mul_inequality(k as int + 1, dim.0 as int, n as int);
            assert((k + 1) * n == k * n + n) by (nonlinear_arith);
            vstd::arithmetic::mul::lemma_mul_inequality(0, k as int, n as int);
        }
        let ghost body_before = body@;
        poly_mul_acc(&mut body, 0, &data, k * n, &sk.data, k * n, n);
        proof {
            assert forall|j: int| 0 <= j < n implies #[trigger] body@[j] == glwe_body_fold(
                mask,
                sk.data@,
                n as int,
                k as int + 1,
                j,
                message@[j].wrapping_add(
                    noise_from_word(
                        csprng_word(seed0, drawn0 + mask_len + j),
                        noise_bound_log2 as int,
                    ),
                ),
            ) by {
                assert(body@[0 + j] == negacyclic_partial(
                    data@,
                    (k * n) as int,
                    sk.data@,
                    (k * n) as int,
                    n as int,
                    n as int,
                    j,
                    body_before[0 + j],
                ));
            }
        }
        k += 1;
    }
    let ghost mask_only = data@;
    let ghost body_final = body@;
    data.append(&mut body);
    proof {
        assert((dim.0 as int + 1) * (n as int) == dim.0 as int * n as int + n)
            by (nonlinear_arith);
        vstd::arithmetic::div_mod::lemma_fundamental_div_mod_converse(
            data@.len() as int,
            n as int,
            dim.0 as int + 1,
            0,
        );
        let full = encrypted_glwe_data(
            sk.data@,
            message@,
            seed0,
            drawn0,
            noise_bound_log2 as int,
            dim.0 as int,
            n as int,
        );
        assert forall|i: int| 0 <= i < data@.len() implies data@[i] == full[i] by {
            if i < dim.0 * n {
                assert(data@[i] == mask_only[i]);
            } else {
                let j = i - dim.0 * n;
                assert(data@[i] == body_final[j]);
            }
        }
        assert(data@ =~= full);
    }
    GlweCiphertext {
        data,
        polynomial_size: sk.polynomial_size,
        ciphertext_modulus: CiphertextModulus,
    }
}

/// Draws `len` uniform mask words from `source`: the next `len` words of
/// its stream, in order.
pub fn random_mask_vec(len: usize, source: &mut RandomSource) -> (r: Vec<u64>)
    ensures
        r@.len() == len,
        final(source).seed_spec() == old(source).seed_spec(),
        final(source).drawn_spec() == old(source).drawn_spec() + len,
        forall|k: int|
            0 <= k < len ==> r@[k] == crate::random::csprng_word(
                old(source).seed_spec(),
                old(source).drawn_spec() + k,
            ),
{
    let mut data: Vec<u64> = Vec::new();
    while data.len() < len
        invariant
            data@.len() <= len,
            source.seed_spec() == old(source).seed_spec(),
            source.drawn_spec() == old(source).drawn_spec() + data@.len(),
            forall|k: int|
                0 <= k < data@.len() ==> data@[k] == crate::random::csprng_word(
                    old(source).seed_spec(),
                    old(source).drawn_spec() + k,
                ),
        decreases len - data@.len(),
    {
        let word = source.random_u64();
        data.push(word);
    }
    data
}

/// The body polynomial of a GLWE encryption of `message` under `sk` for a
/// given mask: `mask * key + message + noise`, the noise terms drawn from
/// the source's next words.
pub fn glwe_body_from_mask(
    sk: &GlweSecretKey,
    message: &Vec<u64>,
    mask: &Vec<u64>,
    noise_bound_log2: usize,
    source: &mut RandomSource,
) -> (r: Vec<u64>)
    requires
        sk.wf(),
        sk.polynomial_size.0 <= 0x10_0000,
        message@.len() == sk.polynomial_size.0,
        mask@.len() == sk.data.len(),
        noise_bound_log2 < 63,
    ensures
        r@.len() == sk.polynomial_size.0,
        final(source).seed_spec() == old(source).seed_spec(),
        final(source).drawn_spec() == old(source).drawn_spec() + sk.polynomial_size.0,
        forall|j: int|
            0 <= j < sk.polynomial_size.0 ==> #[trigger] r@[j] == glwe_body_fold(
                mask@,
                sk.data@,
                sk.polynomial_size.0 as int,
                sk.glwe_dimension_spec(),
                j,
                message@[j].wrapping_add(
                    noise_from_word(
                        csprng_word(old(source).seed_spec(), old(source).drawn_spec() + j),
                        noise_bound_log2 as int,
                    ),
                ),
            ),
{
    let n = sk.polynomial_size.0;
    let dim = sk.glwe_dimension();
    let ghost seed0 = old(source).seed_spec();
    let ghost drawn0 = old(source).drawn_spec();
    let mut body: Vec<u64> = Vec::new();
    let mut t: usize = 0;
    while t < n
        invariant
            t <= n,
            n == sk.polynomial_size.0,
            message@.len() == n,
            noise_bound_log2 < 63,
            body@.len() == t,
            source.seed_spec() == seed0,
            source.drawn_spec() == drawn0 + t,
            forall|j: int|
                0 <= j < t ==> #[trigger] body@[j] == message@[j].wrapping_add(
                    noise_from_word(csprng_word(seed0, drawn0 + j), noise_bound_log2 as int),
                ),
        decreases n - t,
    {
        let noise = source.random_noise(noise_bound_log2);
        body.push(message[t].wrapping_add(noise));
        t += 1;
    }
    proof {
        vstd::arithmetic::div_mod::lemma_fundamental_div_mod(sk.data@.len() as int, n as int);
        vstd::arithmetic::mul::lemma_mul_is_commutative(n as int, sk.glwe_dimension_spec());
    }
    let mut k: usize = 0;
    while k < dim.0
        invariant
            n <= 0x10_0000,
            k <= dim.0,
            sk.wf(),
            dim.0 == sk.glwe_dimension_spec(),
            n == sk.polynomial_size.0,
            message@.len() == n,
            noise_bound_log2 < 63,
            mask@.len() == sk.data.len(),
            dim.0 * n == sk.data.len(),
            body@.len() == n,
            forall|j: int|
                0 <= j < n ==> #[trigger] body@[j] == glwe_body_fold(
                    mask@,
                    sk.data@,
                    n as int,
                    k as int,
                    j,
                    message@[j].wrapping_add(
                        noise_from_word(csprng_word(seed0, drawn0 + j), noise_bound_log2 as int),
                    ),
                ),
        decreases dim.0 - k,
    {
        proof {
            vstd::arithmetic::mul::lemma_mul_inequality(k as int + 1, dim.0 as int, n as int);
            assert((k + 1) * n == k * n + n) by (nonlinear_arith);
            vstd::arithmetic::mul::lemma_mul_inequality(0, k as int, n as int);
        }
        let ghost body_before = body@;
        poly_mul_acc(&mut body, 0, mask, k * n, &sk.data, k * n, n);
        proof {
            assert forall|j: int| 0 <= j < n implies #[trigger] body@[j] == glwe_body_fold(
                mask@,
                sk.data@,
                n as int,
                k as int + 1,
                j,
                message@[j].wrapping_add(
                    noise_from_word(csprng_word(seed0, drawn0 + j), noise_bound_log2 as int),
                ),
            ) by {
                assert(body@[0 + j] == negacyclic_partial(
                    mask@,
                    (k * n) as int,
                    sk.data@,
                    (k * n) as int,
                    n as int,
                    n as int,
                    j,
                    body_before[0 + j],
                ));
            }
        }
        k += 1;
    }
    body
}

/// Encrypts the raw plaintext `plaintext` (already scaled) as an LWE
/// ciphertext under `sk`.
pub fn encrypt_lwe(
    sk: &LweSecretKey,
    plaintext: u64,
    noise_bound_log2: usize,
    source: &mut RandomSource,
) -> (r: LweCiphertext)
    requires
        sk.wf(),
        noise_bound_log2 < 63,
        sk.data.len() < usize::MAX,
    ensures
        r.wf(),
        r.lwe_size_spec() == sk.lwe_dimension_spec() + 1,
{
    let dim = sk.data.len();
    let mut data: Vec<u64> = Vec::new();
    let mut body: u64 = plaintext.wrapping_add(source.random_noise(noise_bound_log2));
    while data.len() < dim
        invariant
            data@.len() <= dim,
            dim == sk.data@.len(),
        decreases dim - data@.len(),
    {
        let a = source.random_u64();
        body = body.wrapping_add(a.wrapping_mul(sk.data[data.len()]));
        data.push(a);
    }
    data.push(body);
    LweCiphertext { data, ciphertext_modulus: CiphertextModulus }
}

/// The phase of an LWE ciphertext under `sk`: body minus the masked key,
/// which equals the scaled plaintext up to the accumulated noise.
pub fn decrypt_lwe(sk: &LweSecretKey, ct: &LweCiphertext) -> (r: u64)
    requires
        sk.wf(),
        ct.wf(),
        ct.lwe_size_spec() == sk.lwe_dimension_spec() + 1,
{
    let dim = sk.data.len();
    let mut acc: u64 = 0;
    let mut i: usize = 0;
    while i < dim
        invariant
            i <= dim,
            dim == sk.data@.len(),
            ct.data@.len() == dim + 1,
        decreases dim - i,
    {
        acc = acc.wrapping_add(ct.data[i].wrapping_mul(sk.data[i]));
        i += 1;
    }
    ct.data[dim].wrapping_sub(acc)
}

} // verus!
