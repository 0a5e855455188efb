//! The packer and the unpacker.
//!
//! Packing partitions same-parameter ciphertexts into chunks of at most
//! `lwe_per_glwe`, multiplies every ciphertext by its message modulus to
//! move the payload into the carry region, folds each chunk into one GLWE
//! ciphertext with the packing keyswitch, and stores it modulus switched.
//! Unpacking locates the owning chunk, decompresses it, extracts the
//! requested coordinate and bootstraps it through the carry extraction
//! table back to a fresh nominal-noise ciphertext.

use vstd::prelude::*;

use crate::bootstrap::{
    apply_programmable_bootstrap, generate_carry_extraction_lookup_table, ShortintBootstrappingKey,
};
use crate::client_key::{clone_ciphertext, unchecked_scalar_mul_assign, Ciphertext};
use crate::compressed_glwe::CompressedModulusSwitchedGlweCiphertext;
use crate::entities::{GlweCiphertext, LweCiphertext, LweCiphertextList};
use crate::glwe_packed_list::{
    chunk_bodies, chunk_count, slot_chunk, slot_offset, GlwePackedCiphertextList,
};
use crate::compressed_glwe::switched_seq;
use crate::keyswitch::{keyswitch_lwe_ciphertext_list_and_pack_in_glwe_ciphertext, ks_packed};
use crate::parameters::{
    is_power_of_two, GlweDimension, LweSize, NoiseLevel,
};
use crate::server_keys::{GlweCompressionKey, GlweDecompressionKey};

verus! {

/// Why a slot could not be unpacked: the requested index lies beyond the
/// number of packed slots.
#[derive(Clone, Copy, Debug, PartialEq, Eq, Structural)]
pub enum UnpackError {
    IndexOutOfRange,
}

/// What a list of ciphertexts must satisfy to be packed together under
/// `key`: a shared shape matching the keyswitch key, shared plaintext
/// metadata, empty carries, and room in the carry space for the scaling.
/// The numeric ceilings on the count, the noise level and the message
/// modulus are machine limits: they keep the scaling and the chunk
/// arithmetic inside the index types, far above any real parameter set.
pub open spec fn packable(key: &GlweCompressionKey, ciphertexts: Seq<Ciphertext>) -> bool {
    &&& 1 <= ciphertexts.len() <= 0x1000_0000
    &&& forall|i: int|
        0 <= i < ciphertexts.len() ==> {
            let ct = #[trigger] ciphertexts[i];
            &&& ct.wf()
            &&& ct.ct.lwe_size_spec()
                == key.packing_key_switching_key.input_lwe_dimension_spec() + 1
            &&& ct.message_modulus == ciphertexts[0].message_modulus
            &&& ct.carry_modulus == ciphertexts[0].carry_modulus
            &&& ct.pbs_order == ciphertexts[0].pbs_order
            &&& ct.degree.0 < ct.message_modulus.0
            &&& ct.noise_level.0 <= 0x1000
        }
    &&& ciphertexts[0].message_modulus.0 <= ciphertexts[0].carry_modulus.0
    &&& ciphertexts[0].message_modulus.0 <= 0x80
}

/// An all-zero coefficient buffer.
pub open spec fn zero_seq(len: int) -> Seq<u64> {
    Seq::new(len as nat, |k: int| 0u64)
}

/// The flat concatenation of one chunk's ciphertexts, each element
/// multiplied by the message modulus to move the payload into the carry
/// region.
pub open spec fn scaled_chunk(
    cts: Seq<Ciphertext>,
    chunk_start: int,
    chunk_len: int,
    lwe_size: int,
    factor: u64,
) -> Seq<u64> {
    Seq::new(
        (chunk_len * lwe_size) as nat,
        |w: int| cts[chunk_start + w / lwe_size].ct.data@[w % lwe_size].wrapping_mul(factor),
    )
}

impl GlweCompressionKey {
    /// Packs `ciphertexts` into a compressed list of GLWE groups.  Every
    /// ciphertext is scaled by the message modulus, chunks of at most
    /// `lwe_per_glwe` are folded by the packing keyswitch, and each
    /// folded group is stored modulus switched with its slot count.
    pub fn pack_lwe_ciphertexts_into_glwes(&self, ciphertexts: &[Ciphertext]) -> (r:
        GlwePackedCiphertextList)
        requires
            self.wf(),
            packable(self, ciphertexts@),
        ensures
            r.wf(),
            r.count == ciphertexts@.len(),
            r.lwe_per_glwe == self.lwe_per_glwe,
            r.message_modulus == ciphertexts@[0].message_modulus,
            r.carry_modulus == ciphertexts@[0].carry_modulus,
            r.pbs_order == ciphertexts@[0].pbs_order,
            r.polynomial_size == self.packing_key_switching_key.output_polynomial_size,
            r.glwe_dimension.0 == self.packing_key_switching_key.output_glwe_size.0 - 1,
            // every chunk is stored at the blind-rotation input precision
            // of the configured polynomial size
            forall|c: int|
                0 <= c < r.compressed_modulus_switched_lwe_ciphertext@.len()
                    ==> crate::parameters::pow2_int(
                    (#[trigger] r.compressed_modulus_switched_lwe_ciphertext@[c]).packed_integers.log_modulus.0 as int,
                ) == 2 * self.polynomial_size.0,
            // every chunk stores exactly the modulus-switched keyswitch
            // fold of its scaled ciphertexts
            forall|c: int|
                0 <= c < r.compressed_modulus_switched_lwe_ciphertext@.len() ==> {
                    let g = #[trigger] r.compressed_modulus_switched_lwe_ciphertext@[c];
                    g.packed_integers.contents() =~= switched_seq(
                        ks_packed(
                            zero_seq(
                                (self.packing_key_switching_key.output_glwe_size.0 as int) * (
                                self.packing_key_switching_key.output_polynomial_size.0 as int),
                            ),
                            self.packing_key_switching_key,
                            scaled_chunk(
                                ciphertexts@,
                                c * (self.lwe_per_glwe as int),
                                chunk_bodies(
                                    ciphertexts@.len() as int,
                                    self.lwe_per_glwe as int,
                                    c,
                                ),
                                self.packing_key_switching_key.input_lwe_dimension_spec() + 1,
                                ciphertexts@[0].message_modulus.0 as u64,
                            ),
                            chunk_bodies(ciphertexts@.len() as int, self.lwe_per_glwe as int, c),
                            self.packing_key_switching_key.output_polynomial_size.0 as int,
                        ),
                        g.packed_integers.log_modulus.0 as int,
                    )
                },
    {
        let count = ciphertexts.len();
        let lwe_pksk = &self.packing_key_switching_key;
        let polynomial_size = lwe_pksk.output_polynomial_size();
        let ciphertext_modulus = lwe_pksk.ciphertext_modulus();
        let glwe_size = lwe_pksk.output_glwe_size();
        let input_dim = lwe_pksk.input_key_lwe_dimension();
        let lwe_size = input_dim.0 + 1;
        let lwe_per_glwe = self.lwe_per_glwe;
        let message_modulus = ciphertexts[0].message_modulus;
        let carry_modulus = ciphertexts[0].carry_modulus;
        let pbs_order = ciphertexts[0].pbs_order;
        proof {
            assert((glwe_size.0 as int) * (polynomial_size.0 as int) <= 0x200_0000)
                by (nonlinear_arith)
                requires
                    2 <= glwe_size.0 <= 0x20,
                    1 <= polynomial_size.0 <= 0x10_0000,
            ;
        }
        let storage_modulus_log = self.polynomial_size.to_blind_rotation_input_modulus_log();
        let mut glwe_ct_list: Vec<CompressedModulusSwitchedGlweCiphertext> = Vec::new();
        let mut chunk_start: usize = 0;
        proof {
            assert(glwe_ct_list@.len() * lwe_per_glwe == 0) by (nonlinear_arith)
                requires
                    glwe_ct_list@.len() == 0,
            ;
        }
        while chunk_start < count
            invariant
                self.wf(),
                packable(self, ciphertexts@),
                count == ciphertexts@.len(),
                lwe_pksk == &self.packing_key_switching_key,
                polynomial_size == lwe_pksk.output_polynomial_size,
                glwe_size == lwe_pksk.output_glwe_size,
                input_dim.0 == lwe_pksk.input_lwe_dimension_spec(),
                lwe_size == input_dim.0 + 1,
                lwe_per_glwe == self.lwe_per_glwe,
                message_modulus == ciphertexts@[0].message_modulus,
                carry_modulus == ciphertexts@[0].carry_modulus,
                pbs_order == ciphertexts@[0].pbs_order,
                (glwe_size.0 as int) * (polynomial_size.0 as int) <= 0x200_0000,
                1 <= storage_modulus_log.0 <= 63,
                crate::parameters::pow2_int(storage_modulus_log.0 as int) == 2
                    * self.polynomial_size.0,
                chunk_start == glwe_ct_list@.len() * lwe_per_glwe,
                glwe_ct_list@.len() >= 1 ==> (glwe_ct_list@.len() - 1) * (lwe_per_glwe as int)
                    < count,
                forall|c: int|
                    0 <= c < glwe_ct_list@.len() ==> {
                        let g = #[trigger] glwe_ct_list@[c];
                        &&& g.wf()
                        &&& g.glwe_dimension.0 == glwe_size.0 - 1
                        &&& g.polynomial_size == polynomial_size
                        &&& g.bodies_count == chunk_bodies(
                            count as int,
                            lwe_per_glwe as int,
                            c,
                        )
                        &&& g.packed_integers.log_modulus == storage_modulus_log
                        &&& g.packed_integers.contents() =~= switched_seq(
                            ks_packed(
                                zero_seq((glwe_size.0 as int) * (polynomial_size.0 as int)),
                                self.packing_key_switching_key,
                                scaled_chunk(
                                    ciphertexts@,
                                    c * (lwe_per_glwe as int),
                                    chunk_bodies(count as int, lwe_per_glwe as int, c),
                                    lwe_size as int,
                                    ciphertexts@[0].message_modulus.0 as u64,
                                ),
                                chunk_bodies(count as int, lwe_per_glwe as int, c),
                                polynomial_size.0 as int,
                            ),
                            g.packed_integers.log_modulus.0 as int,
                        )
                    },
            decreases count + lwe_per_glwe - chunk_start,
        {
            let remaining = count - chunk_start;
            let chunk_len = if remaining < lwe_per_glwe {
                remaining
            } else {
                lwe_per_glwe
            };
            let mut flat: Vec<u64> = Vec::new();
            let mut k: usize = 0;
            while k < chunk_len
                invariant
                    self.wf(),
                    packable(self, ciphertexts@),
                    count == ciphertexts@.len(),
                    k <= chunk_len,
                    chunk_start + chunk_len <= count,
                    lwe_size == self.packing_key_switching_key.input_lwe_dimension_spec() + 1,
                    message_modulus == ciphertexts@[0].message_modulus,
                    flat@.len() == k * lwe_size,
                    lwe_size >= 1,
                    flat@ =~= scaled_chunk(
                        ciphertexts@,
                        chunk_start as int,
                        k as int,
                        lwe_size as int,
                        message_modulus.0 as u64,
                    ),
                decreases chunk_len - k,
            {
                let src = &ciphertexts[chunk_start + k];
                let mut ct = clone_ciphertext(src);
                proof {
                    assert(ct.degree.0 * (message_modulus.0 as int) <= 0x10_0000
                        && ct.noise_level.0 * (message_modulus.0 as int) <= 0x10_0000)
                        by (nonlinear_arith)
                        requires
                            ct.degree.0 < message_modulus.0,
                            1 <= message_modulus.0 <= 0x80,
                            ct.noise_level.0 <= 0x1000,
                    ;
                    assert((k as int + 1) * (lwe_size as int) == (k as int) * (lwe_size as int)
                        + lwe_size) by (nonlinear_arith);
                    assert((k as int) * (lwe_size as int) >= 0) by (nonlinear_arith)
                        requires
                            0 <= k,
                            0 <= lwe_size,
                    ;
                }
                unchecked_scalar_mul_assign(&mut ct, message_modulus.0 as u8);
                let ghost block = ct.ct.data@;
                let mut ct_data = ct.ct.data;
                flat.append(&mut ct_data);
                proof {
                    assert forall|w: int| 0 <= w < flat@.len() implies flat@[w] == scaled_chunk(
                        ciphertexts@,
                        chunk_start as int,
                        k as int + 1,
                        lwe_size as int,
                        message_modulus.0 as u64,
                    )[w] by {
                        if w >= (k as int) * (lwe_size as int) {
                            let t = w - (k as int) * (lwe_size as int);
                            vstd::arithmetic::div_mod::lemma_fundamental_div_mod_converse(
                                w,
                                lwe_size as int,
                                k as int,
                                t,
                            );
                            assert(block[t] == ciphertexts@[chunk_start
                                + k].ct.data@[t].wrapping_mul((message_modulus.0 as u8) as u64));
                            assert(((message_modulus.0 as u8) as u64)
                                == message_modulus.0 as u64);
                        }
                    }
                    assert(flat@ =~= scaled_chunk(
                        ciphertexts@,
                        chunk_start as int,
                        k as int + 1,
                        lwe_size as int,
                        message_modulus.0 as u64,
                    ));
                }
                k += 1;
            }
            proof {
                vstd::arithmetic::mul::lemma_mul_inequality(
                    chunk_len as int,
                    lwe_per_glwe as int,
                    lwe_size as int,
                );
                vstd::arithmetic::div_mod::lemma_fundamental_div_mod_converse(
                    flat@.len() as int,
                    lwe_size as int,
                    chunk_len as int,
                    0,
                );
            }
            let list = LweCiphertextList::from_container(
                flat,
                LweSize(lwe_size),
                ciphertext_modulus,
            );
            let mut out = GlweCiphertext::new(
                0u64,
                glwe_size,
                polynomial_size,
                ciphertext_modulus,
            );
            let ghost flat_view = list.data@;
            let ghost out_init = out.data@;
            proof {
                assert(out_init =~= zero_seq((glwe_size.0 as int) * (polynomial_size.0 as int)));
            }
            keyswitch_lwe_ciphertext_list_and_pack_in_glwe_ciphertext(lwe_pksk, &list, &mut out);
            let bodies_count = chunk_len;
            proof {
                assert(out.data@.len() * 64 <= usize::MAX);
                assert(out.data@ =~= ks_packed(
                    zero_seq((glwe_size.0 as int) * (polynomial_size.0 as int)),
                    self.packing_key_switching_key,
                    scaled_chunk(
                        ciphertexts@,
                        chunk_start as int,
                        chunk_len as int,
                        lwe_size as int,
                        message_modulus.0 as u64,
                    ),
                    chunk_len as int,
                    polynomial_size.0 as int,
                ));
            }
            let compressed = CompressedModulusSwitchedGlweCiphertext::compress(
                &out,
                storage_modulus_log,
                bodies_count,
            );
            proof {
                assert((glwe_ct_list@.len() + 1) * (lwe_per_glwe as int) == glwe_ct_list@.len()
                    * (lwe_per_glwe as int) + lwe_per_glwe) by (nonlinear_arith);
            }
            glwe_ct_list.push(compressed);
            chunk_start = chunk_start + lwe_per_glwe;
        }
        proof {
            let c = glwe_ct_list@.len() as int;
            let lpg = lwe_per_glwe as int;
            assert(c >= 1);
            assert(c * lpg >= count);
            assert((c - 1) * lpg < count);
            assert(c * lpg == (c - 1) * lpg + lpg) by (nonlinear_arith);
            vstd::arithmetic::div_mod::lemma_fundamental_div_mod_converse(
                count as int + lpg - 1,
                lpg,
                c,
                count + lpg - 1 - c * lpg,
            );
        }
        GlwePackedCiphertextList {
            compressed_modulus_switched_lwe_ciphertext: glwe_ct_list,
            glwe_dimension: GlweDimension(glwe_size.0 - 1),
            polynomial_size,
            ciphertext_modulus,
            message_modulus,
            carry_modulus,
            pbs_order,
            lwe_per_glwe,
            count,
        }
    }
}

/// The data of the ciphertext that unpacking slot `index` of `packed`
/// under `key` returns: the owning chunk is decompressed and re-scaled,
/// the coordinate at the slot's local offset is sample extracted, and the
/// result is bootstrapped through the carry extraction table.
pub open spec fn unpacked_ciphertext_data(
    key: GlweDecompressionKey,
    packed: GlwePackedCiphertextList,
    index: int,
) -> Seq<u64> {
    let bsk = *key.blind_rotate_key.key_spec();
    let chunk = packed.compressed_modulus_switched_lwe_ciphertext@[index / (
    packed.lwe_per_glwe as int)];
    let pk_n = packed.polynomial_size.0 as int;
    let pk_dim = packed.glwe_dimension.0 as int;
    let offset = index % (packed.lwe_per_glwe as int);
    let glwe_full = Seq::new(
        chunk.packed_integers.contents().len(),
        |k: int| chunk.packed_integers.contents()[k] << ((64
            - chunk.packed_integers.log_modulus.0) as u64),
    );
    let inter = Seq::new(
        (pk_dim * pk_n + 1) as nat,
        |i: int| crate::bootstrap::extracted_sample_element(glwe_full, pk_n, pk_dim, offset, i),
    );
    let n_c = bsk.polynomial_size.0 as int;
    let gs = bsk.glwe_size.0 as int;
    let acc0 = Seq::new(
        (gs * n_c) as nat,
        |k: int|
            if k < (gs - 1) * n_c {
                0u64
            } else {
                crate::bootstrap::carry_extraction_table(
                    n_c,
                    packed.message_modulus.0 as int,
                    packed.carry_modulus.0 as int,
                )[k - (gs - 1) * n_c]
            },
    );
    Seq::new(
        ((gs - 1) * n_c + 1) as nat,
        |i: int| crate::bootstrap::extracted_sample_element(
            crate::bootstrap::blind_rotated(bsk, inter, acc0),
            n_c,
            gs - 1,
            0,
            i,
        ),
    )
}

impl GlweDecompressionKey {
    /// Whether this key can decompress slots of `packed`: the extracted
    /// samples have the dimension the blind rotation key expects, and the
    /// plaintext space fits the key's lookup-table shape.
    pub open spec fn compatible_with(&self, packed: &GlwePackedCiphertextList) -> bool {
        let key = self.blind_rotate_key.key_spec();
        &&& key.input_lwe_dimension_spec() == (packed.glwe_dimension.0 as int)
            * (packed.polynomial_size.0 as int)
        &&& is_power_of_two(key.polynomial_size.0 as int)
        &&& key.polynomial_size.0 >= 2
        &&& (packed.message_modulus.0 as int) * (packed.carry_modulus.0 as int)
            <= key.polynomial_size.0
        &&& (key.polynomial_size.0 as int) % ((packed.message_modulus.0 as int)
            * (packed.carry_modulus.0 as int)) == 0
        &&& (packed.message_modulus.0 as int) * (packed.carry_modulus.0 as int) <= 0x8000_0000
        &&& 1 <= packed.glwe_dimension.0
        &&& packed.glwe_dimension.0 + 1 <= 8
    }

    /// Reconstructs the scalar ciphertext at global slot `index`: the
    /// owning chunk is decompressed, the coordinate is sample extracted,
    /// and a programmable bootstrap through the carry extraction table
    /// restores the original payload at nominal noise.  Fails with a
    /// range error exactly when `index` is at or beyond `packed.count`;
    /// the list itself is never modified.
    pub fn unpack(&self, packed: &GlwePackedCiphertextList, index: usize) -> (r: Result<
        Ciphertext,
        UnpackError,
    >)
        requires
            self.wf(),
            packed.wf(),
            self.compatible_with(packed),
        ensures
            r is Ok <==> index < packed.count,
            r is Err ==> r == Result::<Ciphertext, UnpackError>::Err(UnpackError::IndexOutOfRange),
            r is Ok ==> {
                let ct = r->Ok_0;
                &&& ct.wf()
                &&& ct.ct.lwe_size_spec() == (self.blind_rotate_key.key_spec().glwe_size.0 - 1)
                    * self.blind_rotate_key.key_spec().polynomial_size.0 + 1
                &&& ct.message_modulus == packed.message_modulus
                &&& ct.carry_modulus == packed.carry_modulus
                &&& ct.pbs_order == packed.pbs_order
                &&& ct.noise_level.0 == 1
                &&& ct.degree.0 == ((packed.message_modulus.0 as int)
                    * (packed.carry_modulus.0 as int) - 1) / (packed.message_modulus.0 as int)
                &&& ct.ct.data@ =~= unpacked_ciphertext_data(*self, *packed, index as int)
            },
    {
        let out_glwe_size = self.out_glwe_size();
        let out_polynomial_size = self.out_polynomial_size();
        let carry_extract = generate_carry_extraction_lookup_table(
            out_glwe_size,
            out_polynomial_size,
            packed.ciphertext_modulus,
            packed.message_modulus,
            packed.carry_modulus,
        );
        if index >= packed.count {
            return Err(UnpackError::IndexOutOfRange);
        }
        let polynomial_size = packed.polynomial_size;
        let lwe_size = packed.glwe_dimension.to_equivalent_lwe_dimension(
            polynomial_size,
        ).to_lwe_size();
        let glwe_index = index / packed.lwe_per_glwe;
        proof {
            lemma_chunk_of_valid_slot(index as int, packed.count as int,
                packed.lwe_per_glwe as int);
        }
        let packed_glwe = packed.compressed_modulus_switched_lwe_ciphertext[glwe_index].extract();
        let monomial_degree = index - glwe_index * packed.lwe_per_glwe;
        let mut intermediate_lwe = LweCiphertext::new(
            0u64,
            lwe_size,
            packed.ciphertext_modulus,
        );
        proof {
            assert(packed_glwe.glwe_size_spec() - 1 == packed.glwe_dimension.0);
        }
        crate::bootstrap::extract_lwe_sample_from_glwe_ciphertext(
            &packed_glwe,
            &mut intermediate_lwe,
            monomial_degree,
        );
        proof {
            let chunk = packed.compressed_modulus_switched_lwe_ciphertext@[index as int / (
            packed.lwe_per_glwe as int)];
            assert(packed_glwe.data@ =~= Seq::new(
                chunk.packed_integers.contents().len(),
                |k: int| chunk.packed_integers.contents()[k] << ((64
                    - chunk.packed_integers.log_modulus.0) as u64),
            ));
            assert(intermediate_lwe.data@ =~= Seq::new(
                ((packed.glwe_dimension.0 as int) * (packed.polynomial_size.0 as int) + 1) as nat,
                |i: int| crate::bootstrap::extracted_sample_element(
                    packed_glwe.data@,
                    packed.polynomial_size.0 as int,
                    packed.glwe_dimension.0 as int,
                    monomial_degree as int,
                    i,
                ),
            ));
        }
        let out_dimension = self.blind_rotate_key.output_lwe_dimension();
        proof {
            assert((self.blind_rotate_key.key_spec().glwe_size.0 as int - 1) * (
            self.blind_rotate_key.key_spec().polynomial_size.0 as int) <= 0x80_0000)
                by (nonlinear_arith)
                requires
                    2 <= self.blind_rotate_key.key_spec().glwe_size.0 <= 8,
                    1 <= self.blind_rotate_key.key_spec().polynomial_size.0 <= 0x10_0000,
            ;
        }
        let mut output_br = LweCiphertext::new(
            0u64,
            out_dimension.to_lwe_size(),
            packed.ciphertext_modulus,
        );
        match &self.blind_rotate_key {
            ShortintBootstrappingKey::Classic(key) => {
                apply_programmable_bootstrap(key, &intermediate_lwe, &mut output_br,
                    &carry_extract);
                proof {
                    let bsk = *self.blind_rotate_key.key_spec();
                    let n_c = bsk.polynomial_size.0 as int;
                    let gs = bsk.glwe_size.0 as int;
                    vstd::arithmetic::div_mod::lemma_fundamental_div_mod(
                        carry_extract.acc.data@.len() as int,
                        n_c,
                    );
                    vstd::arithmetic::mul::lemma_mul_is_commutative(n_c, gs);
                    assert(carry_extract.acc.data@.len() == gs * n_c);
                    assert forall|k: int| 0 <= k < gs * n_c implies carry_extract.acc.data@[k]
                        == (if k < (gs - 1) * n_c {
                        0u64
                    } else {
                        crate::bootstrap::carry_extraction_table(
                            n_c,
                            packed.message_modulus.0 as int,
                            packed.carry_modulus.0 as int,
                        )[k - (gs - 1) * n_c]
                    }) by {
                        assert((gs - 1) * n_c + n_c == gs * n_c) by (nonlinear_arith);
                        if k >= (gs - 1) * n_c {
                            let j = k - (gs - 1) * n_c;
                            assert(j < n_c);
                            assert((gs - 1) * n_c == (out_glwe_size.0 - 1)
                                * out_polynomial_size.0);
                            assert(carry_extract.acc.data@[(out_glwe_size.0 - 1)
                                * out_polynomial_size.0 + j]
                                == crate::bootstrap::carry_extraction_table(
                                out_polynomial_size.0 as int,
                                packed.message_modulus.0 as int,
                                packed.carry_modulus.0 as int,
                            )[j]);
                        }
                    }
                    assert(carry_extract.acc.data@ =~= Seq::new(
                        (gs * n_c) as nat,
                        |k: int|
                            if k < (gs - 1) * n_c {
                                0u64
                            } else {
                                crate::bootstrap::carry_extraction_table(
                                    n_c,
                                    packed.message_modulus.0 as int,
                                    packed.carry_modulus.0 as int,
                                )[k - (gs - 1) * n_c]
                            },
                    ));
                    assert(output_br.data@ =~= unpacked_ciphertext_data(
                        *self,
                        *packed,
                        index as int,
                    ));
                }
            },
        }
        Ok(
            Ciphertext::new(
                output_br,
                carry_extract.degree,
                NoiseLevel::nominal(),
                packed.message_modulus,
                packed.carry_modulus,
                packed.pbs_order,
            ),
        )
    }
}

/// A valid slot's chunk exists, and its local offset is the slot index
/// minus the chunk base.
proof fn lemma_chunk_of_valid_slot(index: int, count: int, lwe_per_glwe: int)
    requires
        0 <= index < count,
        1 <= lwe_per_glwe,
    ensures
        0 <= slot_chunk(index, lwe_per_glwe) < chunk_count(count, lwe_per_glwe),
        index - slot_chunk(index, lwe_per_glwe) * lwe_per_glwe == slot_offset(
            index,
            lwe_per_glwe,
        ),
        0 <= slot_offset(index, lwe_per_glwe) < lwe_per_glwe,
        slot_chunk(index, lwe_per_glwe) * lwe_per_glwe <= index,
{
    crate::glwe_packed_list::lemma_slot_location(index, lwe_per_glwe);
    let c = slot_chunk(index, lwe_per_glwe);
    assert((c + 1) * lwe_per_glwe == c * lwe_per_glwe + lwe_per_glwe) by (nonlinear_arith);
    vstd::arithmetic::div_mod::lemma_div_is_ordered(
        (c + 1) * lwe_per_glwe,
        count + lwe_per_glwe - 1,
        lwe_per_glwe,
    );
    vstd::arithmetic::div_mod::lemma_fundamental_div_mod_converse(
        (c + 1) * lwe_per_glwe,
        lwe_per_glwe,
        c + 1,
        0,
    );
}

} // verus!
