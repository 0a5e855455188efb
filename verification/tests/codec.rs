//! The persisted artifact round-trips through the word-stream codec
//! unchanged, and the decoded copy remains fully usable.

use glwe_compaction::client_key::ShortintEngine;
use glwe_compaction::codec::{deserialize_container, serialize_container};
use glwe_compaction::container::{
    gen_keys_radix, BooleanBlock, DataKind, GlwePackedCompressedCiphertextListBuilder,
    RadixCiphertext,
};
use glwe_compaction::parameters::{
    comp_params_for_message_2_carry_2_ks_pbs, param_message_2_carry_2_ks_pbs,
};

#[test]
fn artifact_round_trips_through_codec() {
    let mut engine = ShortintEngine::new_from_seed(0x5eed_0000_0000_0000_0000_0000_0000_0007);
    let (cks, sks) = gen_keys_radix(param_message_2_carry_2_ks_pbs(), 2, &mut engine);
    let private_compression_key =
        cks.key
            .new_compression_private_key(comp_params_for_message_2_carry_2_ks_pbs(), &mut engine);
    let (compression_key, decompression_key) = cks
        .key
        .new_compression_decompression_keys(&private_compression_key, &mut engine);

    let ct1 = cks.encrypt(2, &mut engine);
    let ct2 = cks.encrypt_bool(true, &mut engine);
    let mut builder = GlwePackedCompressedCiphertextListBuilder::new(sks.message_modulus());
    builder.push(ct1);
    builder.push(ct2);
    let list = builder.build(&compression_key);

    let mut words: Vec<u64> = Vec::new();
    serialize_container(&list, &mut words);
    let (decoded, consumed) = deserialize_container(&words).unwrap();
    assert_eq!(consumed, words.len());

    // the logical shape survives unchanged
    assert_eq!(decoded.len(), list.len());
    assert_eq!(decoded.get_kind_of(0), Some(DataKind::Unsigned(2)));
    assert_eq!(decoded.get_kind_of(1), Some(DataKind::Boolean));
    assert_eq!(decoded.packed_list.count, list.packed_list.count);
    assert_eq!(decoded.packed_list.lwe_per_glwe, list.packed_list.lwe_per_glwe);
    assert_eq!(
        decoded.packed_list.compressed_modulus_switched_lwe_ciphertext.len(),
        list.packed_list.compressed_modulus_switched_lwe_ciphertext.len()
    );
    for (a, b) in decoded
        .packed_list
        .compressed_modulus_switched_lwe_ciphertext
        .iter()
        .zip(list.packed_list.compressed_modulus_switched_lwe_ciphertext.iter())
    {
        assert_eq!(a.bodies_count, b.bodies_count);
        assert_eq!(a.packed_integers.packed_coeffs, b.packed_integers.packed_coeffs);
        assert_eq!(a.packed_integers.initial_len, b.packed_integers.initial_len);
    }

    // re-encoding the decoded artifact reproduces the stored words
    let mut again: Vec<u64> = Vec::new();
    serialize_container(&decoded, &mut again);
    assert_eq!(again, words);

    // and the decoded copy still decompresses correctly
    let a: RadixCiphertext = decoded.get(0, &decompression_key).unwrap().unwrap();
    assert_eq!(cks.decrypt(&a), 2);
    let b: BooleanBlock = decoded.get(1, &decompression_key).unwrap().unwrap();
    assert!(cks.decrypt_bool(&b));

    // corrupting the trailing structure is rejected, not misparsed
    let mut truncated = words.clone();
    truncated.pop();
    assert!(deserialize_container(&truncated).is_none());
}

#[test]
fn decoder_accepts_exactly_valid_streams() {
    let mut engine = ShortintEngine::new_from_seed(0x5eed_0000_0000_0000_0000_0000_0000_000b);
    let (cks, sks) = gen_keys_radix(param_message_2_carry_2_ks_pbs(), 2, &mut engine);
    let private_compression_key =
        cks.key
            .new_compression_private_key(comp_params_for_message_2_carry_2_ks_pbs(), &mut engine);
    let (compression_key, _decompression_key) = cks
        .key
        .new_compression_decompression_keys(&private_compression_key, &mut engine);

    let ct = cks.encrypt(3, &mut engine);
    let mut builder = GlwePackedCompressedCiphertextListBuilder::new(sks.message_modulus());
    builder.push(ct);
    let list = builder.build(&compression_key);

    let mut words: Vec<u64> = Vec::new();
    serialize_container(&list, &mut words);

    // every serializer output decodes, even with trailing garbage
    let mut padded = words.clone();
    padded.push(0xdead_beef);
    let (_, consumed) = deserialize_container(&padded).unwrap();
    assert_eq!(consumed, words.len());

    // a truncated stream is refused
    let truncated: Vec<u64> = words[..words.len() - 1].to_vec();
    assert!(deserialize_container(&truncated).is_none());

    // a corrupted tag word is refused
    let mut corrupted = words.clone();
    let tag_pos = words.len() - 2;
    corrupted[tag_pos] = 9;
    assert!(deserialize_container(&corrupted).is_none());
}
