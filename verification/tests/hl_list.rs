//! Mixed-width values through the container, and the kind-to-type
//! catalogue a high-level reader uses to pick the right type.

use glwe_compaction::client_key::ShortintEngine;
use glwe_compaction::config::ConfigBuilder;
use glwe_compaction::container::{
    gen_keys_radix, BooleanBlock, DataKind, GlwePackedCompressedCiphertextList,
    GlwePackedCompressedCiphertextListBuilder, RadixCiphertext, SignedRadixCiphertext,
};
use glwe_compaction::glwe_packed_list::GlwePackedCiphertextList;
use glwe_compaction::fhe_types::{fhe_type_of_kind, kind_decodes_to, FheTypes};
use glwe_compaction::parameters::{
    comp_params_for_message_2_carry_2_ks_pbs, param_message_2_carry_2_ks_pbs, CarryModulus,
    CiphertextModulus, GlweDimension, MessageModulus, PBSOrder, PolynomialSize,
};

#[test]
fn test_glwe_ct_list() {
    let config = ConfigBuilder::default()
        .enable_glwe_packing_compression(comp_params_for_message_2_carry_2_ks_pbs())
        .build();
    assert!(config.inner.compression_parameters.is_some());

    let mut engine = ShortintEngine::new_from_seed(0xfedc_ba98_7654_3210_fedc_ba98_7654_3210);
    let (ck, sks) = gen_keys_radix(param_message_2_carry_2_ks_pbs(), 16, &mut engine);
    let private_compression_key = ck
        .key
        .new_compression_private_key(config.inner.compression_parameters.unwrap(), &mut engine);
    let (compression_key, decompression_key) = ck
        .key
        .new_compression_decompression_keys(&private_compression_key, &mut engine);

    // a 32-bit unsigned, a 64-bit signed, a boolean and a 2-bit unsigned:
    // two bits of payload per block
    let ct1 = ck.encrypt_radix(17, 16, &mut engine);
    let ct2 = ck.encrypt_signed_radix(-1, 32, &mut engine);
    let ct3 = ck.encrypt_bool(false, &mut engine);
    let ct4 = ck.encrypt_radix(3, 1, &mut engine);

    let mut builder = GlwePackedCompressedCiphertextListBuilder::new(sks.message_modulus());
    builder.push(ct1);
    builder.push(ct2);
    builder.push(ct3);
    builder.push(ct4);
    let compressed_list = builder.build(&compression_key);

    {
        let a: RadixCiphertext = compressed_list.get(0, &decompression_key).unwrap().unwrap();
        let b: SignedRadixCiphertext =
            compressed_list.get(1, &decompression_key).unwrap().unwrap();
        let c: BooleanBlock = compressed_list.get(2, &decompression_key).unwrap().unwrap();
        let d: RadixCiphertext = compressed_list.get(3, &decompression_key).unwrap().unwrap();

        let a = ck.decrypt(&a);
        assert_eq!(a, 17);
        let b = ck.decrypt_signed(&b);
        assert_eq!(b, -1);
        let c = ck.decrypt_bool(&c);
        assert!(!c);
        let d = ck.decrypt(&d);
        assert_eq!(d, 3);

        assert!(compressed_list
            .get::<BooleanBlock>(4, &decompression_key)
            .is_none());
    }

    {
        // Incorrect type
        assert!(compressed_list
            .get::<SignedRadixCiphertext>(0, &decompression_key)
            .unwrap()
            .is_err());

        // Correct variant but wrong number of bits: entry 0 reads back as
        // a 32-bit unsigned, not a 16-bit one
        let mm = MessageModulus(4);
        let kind0 = compressed_list.get_kind_of(0).unwrap();
        assert_eq!(fhe_type_of_kind(kind0, mm), Some(FheTypes::Uint32));
        assert_ne!(fhe_type_of_kind(kind0, mm), Some(FheTypes::Uint16));
    }
}

#[test]
fn kind_catalogue() {
    let mm = MessageModulus(4);
    assert_eq!(fhe_type_of_kind(DataKind::Boolean, mm), Some(FheTypes::Bool));
    assert_eq!(
        fhe_type_of_kind(DataKind::Unsigned(1), mm),
        Some(FheTypes::Uint2)
    );
    assert_eq!(
        fhe_type_of_kind(DataKind::Unsigned(8), mm),
        Some(FheTypes::Uint16)
    );
    assert_eq!(
        fhe_type_of_kind(DataKind::Signed(32), mm),
        Some(FheTypes::Int64)
    );
    assert_eq!(
        fhe_type_of_kind(DataKind::Signed(128), mm),
        Some(FheTypes::Int256)
    );
    // widths that no catalogue type carries map to nothing
    assert_eq!(fhe_type_of_kind(DataKind::Unsigned(24), mm), None);
    assert_eq!(fhe_type_of_kind(DataKind::Signed(9), mm), None);
    // a binary base carries one bit per block
    let mm2 = MessageModulus(2);
    assert_eq!(
        fhe_type_of_kind(DataKind::Unsigned(8), mm2),
        Some(FheTypes::Uint8)
    );
    // an eight-value base carries three bits per block
    let mm8 = MessageModulus(8);
    assert_eq!(
        fhe_type_of_kind(DataKind::Unsigned(2), mm8),
        Some(FheTypes::Uint6)
    );
    assert_eq!(fhe_type_of_kind(DataKind::Signed(3), mm8), None);
    // a base that is not a power of two rounds its bit width down
    let mm3 = MessageModulus(3);
    assert_eq!(
        fhe_type_of_kind(DataKind::Unsigned(8), mm3),
        Some(FheTypes::Uint8)
    );
    // a unit base carries no payload at all
    let mm1 = MessageModulus(1);
    assert_eq!(fhe_type_of_kind(DataKind::Unsigned(8), mm1), None);
    assert_eq!(fhe_type_of_kind(DataKind::Boolean, mm1), Some(FheTypes::Bool));
}

#[test]
fn width_checked_reads() {
    // the width check reads only the kind catalogue, so an empty payload
    // with a hand-written table of kinds exercises every branch
    let list = GlwePackedCompressedCiphertextList {
        packed_list: GlwePackedCiphertextList {
            compressed_modulus_switched_lwe_ciphertext: Vec::new(),
            glwe_dimension: GlweDimension(1),
            polynomial_size: PolynomialSize(16),
            ciphertext_modulus: CiphertextModulus,
            message_modulus: MessageModulus(4),
            carry_modulus: CarryModulus(4),
            pbs_order: PBSOrder::KeyswitchBootstrap,
            lwe_per_glwe: 16,
            count: 0,
        },
        info: vec![DataKind::Unsigned(16), DataKind::Boolean, DataKind::Signed(4)],
    };
    let mm = MessageModulus(4);

    assert!(kind_decodes_to(&list, 0, mm, FheTypes::Uint32));
    assert!(kind_decodes_to(&list, 1, mm, FheTypes::Bool));
    assert!(kind_decodes_to(&list, 2, mm, FheTypes::Int8));
    // a width mismatch, and an index past the table, both refuse
    assert!(!kind_decodes_to(&list, 0, mm, FheTypes::Uint16));
    assert!(!kind_decodes_to(&list, 3, mm, FheTypes::Bool));
}
