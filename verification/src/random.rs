//! Randomness for key generation and encryption.
//!
//! All random material is drawn from a seeded AES-CTR byte stream provided
//! by an outside generator; everything derived from it (binary key bits,
//! bounded noise) is computed here in verified code.  The stream is a pure
//! function of the seed and the position, named `csprng_word`, which is
//! what makes seeded key material reproducible by contract; no concrete
//! value of the stream is ever assumed.

use vstd::prelude::*;

use concrete_csprng::generators::SoftwareRandomGenerator;

verus! {

#[verifier::external_type_specification]
#[verifier::external_body]
pub struct ExSoftwareRandomGenerator(SoftwareRandomGenerator);

/// Word `index` of the pseudorandom stream keyed by `seed`: the AES-CTR
/// stream depends on the seed and the position alone, so its words can be
/// named, though nothing is known about their values.  The generator
/// assembles its blocks with native-endian conversions, so the stream is
/// a fixed function within one compiled program, which is all this name
/// asserts; it may differ between machines of different endianness.
pub uninterp spec fn csprng_word(seed: u128, index: int) -> u64;

/// The noise term derived from one stream word: the word reduced into
/// the doubled bound, recentred around zero on the wrapping torus.
pub open spec fn noise_from_word(word: u64, bound_log2: int) -> u64 {
    (word % (1u64 << ((bound_log2 + 1) as u64))).wrapping_sub(1u64 << (bound_log2 as u64))
}

/// Relies on concrete_csprng's `RandomGenerator::new` for
/// `SoftwareRandomGenerator`: a byte stream generator keyed by the seed.
#[verifier::external_body]
fn new_software_generator(seed: u128) -> SoftwareRandomGenerator {
    <SoftwareRandomGenerator as concrete_csprng::generators::RandomGenerator>::new(
        concrete_csprng::seeders::Seed(seed),
    )
}

/// Relies on concrete_csprng's `Iterator::next` for
/// `SoftwareRandomGenerator`: eight consecutive stream bytes assembled
/// into one word.  The stream is a pure function of the seed and the
/// position alone, so the result is word `drawn` of the stream keyed by
/// `seed`; nothing is promised of its value.
#[verifier::external_body]
fn next_source_word(source: &mut RandomSource) -> (r: u64)
    ensures
        r == csprng_word(old(source).seed_spec(), old(source).drawn_spec()),
        final(source).seed_spec() == old(source).seed_spec(),
        final(source).drawn_spec() == old(source).drawn_spec() + 1,
{
    let mut value: u64 = 0;
    for _ in 0..8 {
        value = (value << 8) | source.generator.next().map_or(0u64, u64::from);
    }
    value
}

/// A seeded source of pseudorandom words.  Two sources built from the same
/// seed yield the same stream, so seeded key material is reproducible.
pub struct RandomSource {
    generator: SoftwareRandomGenerator,
    seed: Ghost<u128>,
    drawn: Ghost<int>,
}

impl RandomSource {
    /// The seed this source was keyed with.
    pub closed spec fn seed_spec(&self) -> u128 {
        self.seed@
    }

    /// How many words were drawn from this source so far.
    pub closed spec fn drawn_spec(&self) -> int {
        self.drawn@
    }

    /// Creates a source keyed by `seed`.
    pub fn new(seed: u128) -> (r: Self)
        ensures
            r.seed_spec() == seed,
            r.drawn_spec() == 0,
    {
        RandomSource { generator: new_software_generator(seed), seed: Ghost(seed), drawn: Ghost(0) }
    }

    /// The next pseudorandom word of the stream.
    pub fn random_u64(&mut self) -> (r: u64)
        ensures
            r == csprng_word(old(self).seed_spec(), old(self).drawn_spec()),
            final(self).seed_spec() == old(self).seed_spec(),
            final(self).drawn_spec() == old(self).drawn_spec() + 1,
    {
        next_source_word(self)
    }

    /// A uniform pseudorandom bit, as a key coefficient.
    pub fn random_binary(&mut self) -> (r: u64)
        ensures
            r == 0 || r == 1,
            r == csprng_word(old(self).seed_spec(), old(self).drawn_spec()) & 1,
            final(self).seed_spec() == old(self).seed_spec(),
            final(self).drawn_spec() == old(self).drawn_spec() + 1,
    {
        let word = self.random_u64();
        proof {
            assert(word & 1 == 0 || word & 1 == 1) by (bit_vector);
        }
        word & 1
    }

    /// A pseudorandom noise term from the centred bounded distribution with
    /// bound `2^bound_log2`, already embedded into the wrapping 64-bit
    /// torus: the result is `e mod 2^64` for some `e` in
    /// `[-2^bound_log2, 2^bound_log2)`.
    pub fn random_noise(&mut self, bound_log2: usize) -> (r: u64)
        requires
            bound_log2 < 63,
        ensures
            r < (1u64 << (bound_log2 as u64)) || r >= (0u64.wrapping_sub(
                1u64 << (bound_log2 as u64),
            )),
            r == noise_from_word(
                csprng_word(old(self).seed_spec(), old(self).drawn_spec()),
                bound_log2 as int,
            ),
            final(self).seed_spec() == old(self).seed_spec(),
            final(self).drawn_spec() == old(self).drawn_spec() + 1,
    {
        let word = self.random_u64();
        let half_range: u64 = 1u64 << ((bound_log2 + 1) as u64);
        proof {
            let s = (bound_log2 + 1) as u64;
            assert(s < 64 ==> (1u64 << s) > 0) by (bit_vector);
        }
        let masked = word % half_range;
        proof {
            let b = bound_log2 as u64;
            assert(b < 63 && masked < (1u64 << ((b + 1) as u64)) ==> {
                let r = masked.wrapping_sub(1u64 << b);
                r < (1u64 << b) || r >= (0u64.wrapping_sub(1u64 << b))
            }) by (bit_vector);
        }
        masked.wrapping_sub(1u64 << (bound_log2 as u64))
    }
}

} // verus!
