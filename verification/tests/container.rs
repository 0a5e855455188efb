//! The typed container: heterogeneous values in, typed random access out.

use glwe_compaction::client_key::ShortintEngine;
use glwe_compaction::container::{
    gen_keys_radix, BooleanBlock, Expandable, GlwePackedCompressedCiphertextListBuilder,
    RadixCiphertext, SignedRadixCiphertext,
};
use glwe_compaction::parameters::{
    comp_params_for_message_2_carry_2_ks_pbs, param_message_2_carry_2_ks_pbs,
};

#[test]
fn test_heterogeneous_glwe_compression_ci_run_filter() {
    // Generate the client key and the server key:

    let num_blocks = 2;

    let mut engine = ShortintEngine::new_from_seed(0x0123_4567_89ab_cdef_0123_4567_89ab_cdef);
    let (cks, sks) = gen_keys_radix(param_message_2_carry_2_ks_pbs(), num_blocks, &mut engine);

    let private_compression_key =
        cks.key
            .new_compression_private_key(comp_params_for_message_2_carry_2_ks_pbs(), &mut engine);

    let (compression_key, decompression_key) = cks
        .key
        .new_compression_decompression_keys(&private_compression_key, &mut engine);

    let ct1 = cks.encrypt(3, &mut engine);

    let ct2 = cks.encrypt_signed(-2, &mut engine);

    let ct3 = cks.encrypt_bool(true, &mut engine);

    let mut builder =
        GlwePackedCompressedCiphertextListBuilder::new(sks.message_modulus());
    builder.push(ct1);
    builder.push(ct2);
    builder.push(ct3);
    let compressed = builder.build(&compression_key);

    let a = compressed.blocks_of(0, &decompression_key).unwrap();

    let decrypted = cks.decrypt(&RadixCiphertext::from_expanded_blocks(a.0, a.1).unwrap());
    assert_eq!(decrypted, 3);

    let b = compressed.blocks_of(1, &decompression_key).unwrap();

    let decrypted =
        cks.decrypt_signed(&SignedRadixCiphertext::from_expanded_blocks(b.0, b.1).unwrap());

    assert_eq!(decrypted, -2);

    let c = compressed.blocks_of(2, &decompression_key).unwrap();

    assert!(cks.decrypt_bool(&BooleanBlock::from_expanded_blocks(c.0, c.1).unwrap()));
}

#[test]
fn builder_extend_matches_repeated_push() {
    let mut engine = ShortintEngine::new_from_seed(0x5eed_0000_0000_0000_0000_0000_0000_0008);
    let (cks, sks) = gen_keys_radix(param_message_2_carry_2_ks_pbs(), 2, &mut engine);
    let private_compression_key =
        cks.key
            .new_compression_private_key(comp_params_for_message_2_carry_2_ks_pbs(), &mut engine);
    let (compression_key, decompression_key) = cks
        .key
        .new_compression_decompression_keys(&private_compression_key, &mut engine);

    let values: Vec<RadixCiphertext> = (0..3)
        .map(|i| cks.encrypt(i as u64, &mut engine))
        .collect();
    let mut builder = GlwePackedCompressedCiphertextListBuilder::new(sks.message_modulus());
    builder.extend(values);
    let list = builder.build(&compression_key);
    assert_eq!(list.len(), 3);
    for i in 0..3usize {
        let v: RadixCiphertext = list.get(i, &decompression_key).unwrap().unwrap();
        assert_eq!(cks.decrypt(&v), i as u64);
    }
}

#[test]
fn container_typed_access_and_errors() {
    let mut engine = ShortintEngine::new_from_seed(0x5eed_0000_0000_0000_0000_0000_0000_0006);
    let (cks, sks) = gen_keys_radix(param_message_2_carry_2_ks_pbs(), 2, &mut engine);
    let private_compression_key =
        cks.key
            .new_compression_private_key(comp_params_for_message_2_carry_2_ks_pbs(), &mut engine);
    let (compression_key, decompression_key) = cks
        .key
        .new_compression_decompression_keys(&private_compression_key, &mut engine);

    let ct1 = cks.encrypt(1, &mut engine);
    let ct2 = cks.encrypt_bool(false, &mut engine);
    let mut builder = GlwePackedCompressedCiphertextListBuilder::new(sks.message_modulus());
    builder.push(ct1);
    builder.push(ct2);
    let list = builder.build(&compression_key);

    assert_eq!(list.len(), 2);
    assert!(!list.is_empty());

    // typed access with the right type
    let a: RadixCiphertext = list.get(0, &decompression_key).unwrap().unwrap();
    assert_eq!(cks.decrypt(&a), 1);
    let b: BooleanBlock = list.get(1, &decompression_key).unwrap().unwrap();
    assert!(!cks.decrypt_bool(&b));

    // a wrong type is a recoverable mismatch, not a crash
    assert!(list
        .get::<SignedRadixCiphertext>(0, &decompression_key)
        .unwrap()
        .is_err());
    assert!(list
        .get::<RadixCiphertext>(1, &decompression_key)
        .unwrap()
        .is_err());

    // past the end there is nothing
    assert!(list.get::<BooleanBlock>(2, &decompression_key).is_none());
    assert!(list.get_kind_of(2).is_none());
}
