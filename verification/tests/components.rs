//! Unit tests of the engine's components: the carry extraction table,
//! modulus switching, slot arithmetic, configuration and the shrinking
//! keyswitch key bookkeeping.

use glwe_compaction::bootstrap::carry_extraction_lut_fn;
use glwe_compaction::compressed_glwe::CompressedModulusSwitchedGlweCiphertext;
use glwe_compaction::config::{ConfigBuilder, IntegerConfig};
use glwe_compaction::entities::GlweCiphertext;
use glwe_compaction::glwe_packed_list::GlwePackedCiphertextList;
use glwe_compaction::parameters::{
    comp_params_for_message_2_carry_2_ks_pbs, param_message_2_carry_2_ks_pbs, CarryModulus,
    CiphertextConformanceParams, CiphertextModulus, CiphertextModulusLog, DecompositionBaseLog,
    DecompositionLevelCount, GlweDimension, GlweSize, LweDimension, MessageModulus, PBSOrder,
    PolynomialSize, SharedLweSecretKeyCommonCoefCount,
};
use glwe_compaction::client_key::{gen_keys, ShortintEngine};
use glwe_compaction::inner_keys::{
    CompactPublicKey, CompressedCompactPublicKey, CompressedServerKey, IntegerClientKey,
    IntegerCompactPublicKey, IntegerCompressedCompactPublicKey, IntegerCompressedServerKey,
};
use glwe_compaction::shrinking_key::LweShrinkingKeyswitchKey;

#[test]
fn carry_extraction_scale_invariance() {
    // the table divides out exactly the factor packing multiplied in
    let mm = MessageModulus(4);
    for payload in 0u64..4 {
        let scaled = payload * 4;
        assert_eq!(carry_extraction_lut_fn(scaled, mm), payload);
    }
    // on the rest of the message-and-carry range it is plain division
    assert_eq!(carry_extraction_lut_fn(7, mm), 1);
    assert_eq!(carry_extraction_lut_fn(15, mm), 3);
    let mm8 = MessageModulus(8);
    for payload in 0u64..8 {
        assert_eq!(carry_extraction_lut_fn(payload * 8, mm8), payload);
    }
}

#[test]
fn modulus_switch_rounds_coefficients() {
    // a trivial GLWE with known coefficients, stored at 9 bits
    let glwe = GlweCiphertext {
        data: vec![0, 1u64 << 55, (1u64 << 55) - 1, 0x8000_0000_0000_0000, u64::MAX],
        polynomial_size: PolynomialSize(5),
        ciphertext_modulus: CiphertextModulus,
    };
    let compressed =
        CompressedModulusSwitchedGlweCiphertext::compress(&glwe, CiphertextModulusLog(9), 3);
    assert_eq!(compressed.bodies_count, 3);
    let extracted = compressed.extract();
    assert_eq!(extracted.data.len(), 5);
    // each coefficient comes back rounded to the nearest multiple of 2^55
    assert_eq!(extracted.data[0], 0);
    assert_eq!(extracted.data[1], 1u64 << 55);
    assert_eq!(extracted.data[2], 1u64 << 55);
    assert_eq!(extracted.data[3], 0x8000_0000_0000_0000);
    // the top coefficient rounds up and wraps around the torus
    assert_eq!(extracted.data[4], 0);
}

#[test]
fn configuration_surface() {
    let config = ConfigBuilder::default_with_big_encryption().build();
    assert!(config.inner.compression_parameters.is_none());
    assert!(config.inner.wopbs_block_parameters.is_none());
    let via_from = glwe_compaction::config::Config::from(ConfigBuilder::default_with_small_encryption());
    assert!(via_from.inner.compression_parameters.is_none());

    let config = ConfigBuilder::default()
        .enable_function_evaluation()
        .enable_glwe_packing_compression(comp_params_for_message_2_carry_2_ks_pbs())
        .build();
    assert!(config.inner.wopbs_block_parameters.is_some());
    let comp = config.inner.compression_parameters.unwrap();
    assert_eq!(comp.lwe_per_glwe, 16);

    let custom = ConfigBuilder::with_custom_parameters(
        glwe_compaction::parameters::PBSParameters::PBS(param_message_2_carry_2_ks_pbs()),
        None,
        None,
    )
    .use_custom_parameters(
        glwe_compaction::parameters::PBSParameters::PBS(param_message_2_carry_2_ks_pbs()),
        None,
        Some(comp_params_for_message_2_carry_2_ks_pbs()),
    )
    .build();
    assert!(custom.inner.compression_parameters.is_some());

    let mut inner = IntegerConfig::default_big();
    inner.enable_glwe_packing_compression(comp_params_for_message_2_carry_2_ks_pbs());
    assert!(inner.compression_parameters.is_some());
    inner.enable_wopbs();
    assert!(inner.wopbs_block_parameters.is_some());
}

#[test]
fn key_bundles_come_apart_and_back() {
    let params = param_message_2_carry_2_ks_pbs();
    let mut engine = ShortintEngine::new_from_seed(0x5eed_0000_0000_0000_0000_0000_0000_0009);
    let (cks, _sks) = gen_keys(params, &mut engine);
    let private_compression_key =
        cks.new_compression_private_key(comp_params_for_message_2_carry_2_ks_pbs(), &mut engine);
    let seeded = cks.new_seeded_compression_decompression_keys(&private_compression_key, &mut engine);

    let bundle = IntegerClientKey::from_raw_parts(cks, None, Some(private_compression_key));
    let (key, wopbs, compression) = bundle.into_raw_parts();
    assert!(wopbs.is_none());
    assert!(compression.is_some());
    assert_eq!(key.classic_message_modulus(), 4);

    let server = IntegerCompressedServerKey::from_raw_parts(
        CompressedServerKey { message_modulus: params.message_modulus, carry_modulus: params.carry_modulus },
        Some(seeded),
    );
    let (compressed_key, seeded_pair) = server.into_raw_parts();
    assert_eq!(compressed_key.message_modulus.0, 4);
    assert_eq!(seeded_pair.as_ref().unwrap().0.lwe_per_glwe, 16);

    let rebuilt = IntegerCompressedServerKey::from_raw_parts(compressed_key, seeded_pair);
    let full = rebuilt.decompress();
    assert_eq!(full.key.message_modulus.0, 4);
    assert_eq!(full.key.carry_modulus.0, 4);
    assert!(full.wopbs_key.is_none());
    assert_eq!(full.compression_key.as_ref().unwrap().lwe_per_glwe, 16);
    assert_eq!(full.decompression_key.as_ref().unwrap().lwe_per_glwe, 16);

    let pk = IntegerCompactPublicKey::from_raw_parts(CompactPublicKey { parameters: params });
    assert_eq!(pk.into_raw_parts().parameters.message_modulus.0, 4);
    let cpk = IntegerCompressedCompactPublicKey::from_raw_parts(CompressedCompactPublicKey {
        parameters: params,
    });
    assert_eq!(cpk.decompress().key.parameters.carry_modulus.0, 4);
    assert_eq!(cpk.into_raw_parts().parameters.polynomial_size.0, 128);
}

#[test]
fn shrinking_keyswitch_key_bookkeeping() {
    // input key of dimension 24 sharing 16 coefficients with the output
    // key of dimension 16: only 8 coefficients are encrypted
    let key = LweShrinkingKeyswitchKey::new(
        0,
        DecompositionBaseLog(4),
        DecompositionLevelCount(3),
        LweDimension(24),
        LweDimension(16),
        SharedLweSecretKeyCommonCoefCount(16),
        CiphertextModulus,
    );
    assert_eq!(key.input_key_lwe_dimension().0, 24);
    assert_eq!(key.output_key_lwe_dimension().0, 16);
    assert_eq!(key.output_lwe_size().0, 17);
    assert_eq!(key.unshared_randomness_lwe_dimension().0, 8);
    assert_eq!(key.shared_randomness_lwe_dimension().0, 16);
    assert_eq!(key.decomposition_base_log().0, 4);
    assert_eq!(key.decomposition_level_count().0, 3);
    assert_eq!(key.input_key_element_encrypted_size(), 3 * 17);
    let container = key.into_container();
    assert_eq!(container.len(), 8 * 3 * 17);

    let rebuilt = LweShrinkingKeyswitchKey::from_container(
        container,
        DecompositionBaseLog(4),
        DecompositionLevelCount(3),
        LweDimension(24),
        glwe_compaction::parameters::LweSize(17),
        CiphertextModulus,
    );
    assert_eq!(rebuilt.input_key_lwe_dimension().0, 24);
    assert_eq!(rebuilt.as_lwe_keyswitch_key().input_key_lwe_dimension().0, 8);

    let sizes = GlweSize(2);
    assert_eq!(sizes.to_glwe_dimension().0, 1);
}

#[test]
fn packed_list_conformance() {
    let list = GlwePackedCiphertextList {
        compressed_modulus_switched_lwe_ciphertext: Vec::new(),
        glwe_dimension: GlweDimension(1),
        polynomial_size: PolynomialSize(16),
        ciphertext_modulus: CiphertextModulus,
        message_modulus: MessageModulus(4),
        carry_modulus: CarryModulus(4),
        pbs_order: PBSOrder::KeyswitchBootstrap,
        lwe_per_glwe: 16,
        count: 0,
    };
    let expected = CiphertextConformanceParams {
        ct_modulus: CiphertextModulus,
        message_modulus: MessageModulus(4),
        carry_modulus: CarryModulus(4),
        pbs_order: PBSOrder::KeyswitchBootstrap,
    };
    assert!(list.is_conformant(&expected));

    let wrong_space = CiphertextConformanceParams { message_modulus: MessageModulus(2), ..expected };
    assert!(!list.is_conformant(&wrong_space));
    let wrong_order = CiphertextConformanceParams {
        pbs_order: PBSOrder::BootstrapKeyswitch,
        ..expected
    };
    assert!(!list.is_conformant(&wrong_order));

    let mut oversized = list;
    oversized.lwe_per_glwe = 17;
    assert!(!oversized.is_conformant(&expected));
}
