//! End-to-end compaction: encrypt, pack, unpack every slot, decrypt.

use glwe_compaction::client_key::{gen_keys, ClientKey, ShortintEngine};
use glwe_compaction::compression::UnpackError;
use glwe_compaction::parameters::{
    comp_params_for_message_2_carry_2_ks_pbs, param_message_2_carry_2_ks_pbs,
};
use glwe_compaction::server_keys::{GlweCompressionKey, GlweDecompressionKey};

fn setup(seed: u128) -> (ClientKey, GlweCompressionKey, GlweDecompressionKey, ShortintEngine) {
    let mut engine = ShortintEngine::new_from_seed(seed);
    let (cks, _sks) = gen_keys(param_message_2_carry_2_ks_pbs(), &mut engine);
    let private_compression_key =
        cks.new_compression_private_key(comp_params_for_message_2_carry_2_ks_pbs(), &mut engine);
    let (compression_key, decompression_key) =
        cks.new_compression_decompression_keys(&private_compression_key, &mut engine);
    (cks, compression_key, decompression_key, engine)
}

fn test_packing_(
    comp_key: &GlweCompressionKey,
    decomp_key: &GlweDecompressionKey,
    cks: &ClientKey,
    f: impl Fn(u64) -> u64,
    number_to_pack: usize,
    engine: &mut ShortintEngine,
) {
    let ct: Vec<_> = (0..number_to_pack)
        .map(|i| cks.encrypt(f(i as u64), engine))
        .collect();

    let packed = comp_key.pack_lwe_ciphertexts_into_glwes(&ct);

    (0..number_to_pack).for_each(|i| {
        let unpacked = decomp_key.unpack(&packed, i).unwrap();

        let res = cks.decrypt_message_and_carry(&unpacked);

        assert_eq!(f(i as u64), res);
    });
}

#[test]
fn test_packing() {
    let (cks, compression_key, decompression_key, mut engine) =
        setup(0x0011_2233_4455_6677_8899_aabb_ccdd_eeff);

    for number_to_pack in [1, 128] {
        let f = |x| (x + 1) % 4;

        test_packing_(
            &compression_key,
            &decompression_key,
            &cks,
            f,
            number_to_pack,
            &mut engine,
        );
    }
}

#[test]
fn compaction_round_trip_sizes() {
    // lwe_per_glwe is 16: exercise one slot, half a chunk, exactly one
    // chunk, one chunk plus one, and three chunks
    let (cks, compression_key, decompression_key, mut engine) =
        setup(0x5eed_0000_0000_0000_0000_0000_0000_0001);

    for number_to_pack in [1usize, 8, 16, 17, 48] {
        let f = |x| (3 * x + 2) % 4;
        test_packing_(
            &compression_key,
            &decompression_key,
            &cks,
            f,
            number_to_pack,
            &mut engine,
        );
    }
}

#[test]
fn chunk_boundary_slots() {
    // slots 15 and 16 are adjacent but live in different chunks
    let (cks, compression_key, decompression_key, mut engine) =
        setup(0x5eed_0000_0000_0000_0000_0000_0000_0002);

    let n = 20usize;
    let f = |x| x % 4;
    let ct: Vec<_> = (0..n).map(|i| cks.encrypt(f(i as u64), &mut engine)).collect();
    let packed = compression_key.pack_lwe_ciphertexts_into_glwes(&ct);
    assert_eq!(packed.lwe_per_glwe, 16);
    assert_eq!(packed.compressed_modulus_switched_lwe_ciphertext.len(), 2);
    for i in [15usize, 16] {
        let unpacked = decompression_key.unpack(&packed, i).unwrap();
        assert_eq!(cks.decrypt_message_and_carry(&unpacked), f(i as u64));
    }
}

#[test]
fn unpack_out_of_range_is_error() {
    let (cks, compression_key, decompression_key, mut engine) =
        setup(0x5eed_0000_0000_0000_0000_0000_0000_0003);

    let ct: Vec<_> = (0..3).map(|i| cks.encrypt(i as u64, &mut engine)).collect();
    let packed = compression_key.pack_lwe_ciphertexts_into_glwes(&ct);
    assert_eq!(packed.count, 3);
    match decompression_key.unpack(&packed, packed.count) {
        Err(e) => assert_eq!(e, UnpackError::IndexOutOfRange),
        Ok(_) => panic!("an out-of-range slot must not unpack"),
    }
    match decompression_key.unpack(&packed, packed.count + 7) {
        Err(e) => assert_eq!(e, UnpackError::IndexOutOfRange),
        Ok(_) => panic!("an out-of-range slot must not unpack"),
    }
    assert!(decompression_key.unpack(&packed, 2).is_ok());
}

#[test]
fn unpack_is_repeatable() {
    // extraction is read-only: two unpackings of one slot agree
    let (cks, compression_key, decompression_key, mut engine) =
        setup(0x5eed_0000_0000_0000_0000_0000_0000_0004);

    let ct: Vec<_> = (0..5).map(|i| cks.encrypt((i as u64) % 4, &mut engine)).collect();
    let packed = compression_key.pack_lwe_ciphertexts_into_glwes(&ct);
    let first = decompression_key.unpack(&packed, 2).unwrap();
    let second = decompression_key.unpack(&packed, 2).unwrap();
    assert_eq!(first.ct.data, second.ct.data);
    assert_eq!(
        cks.decrypt_message_and_carry(&first),
        cks.decrypt_message_and_carry(&second)
    );
    assert_eq!(cks.decrypt_message_and_carry(&first), 2);
}

#[test]
fn seeded_keys_expand_and_work() {
    let mut engine = ShortintEngine::new_from_seed(0x5eed_0000_0000_0000_0000_0000_0000_0005);
    let (cks, _sks) = gen_keys(param_message_2_carry_2_ks_pbs(), &mut engine);
    let private_compression_key =
        cks.new_compression_private_key(comp_params_for_message_2_carry_2_ks_pbs(), &mut engine);
    let (seeded_comp, seeded_decomp) =
        cks.new_seeded_compression_decompression_keys(&private_compression_key, &mut engine);

    // expansion is deterministic
    let comp_a = seeded_comp.decompress();
    let comp_b = seeded_comp.decompress();
    assert_eq!(
        comp_a.packing_key_switching_key.data,
        comp_b.packing_key_switching_key.data
    );
    let decomp_a = seeded_decomp.decompress();
    let decomp_b = seeded_decomp.decompress();

    // the expanded keys compact and reconstruct correctly
    let f = |x| (x + 3) % 4;
    let ct: Vec<_> = (0..6).map(|i| cks.encrypt(f(i as u64), &mut engine)).collect();
    let packed = comp_a.pack_lwe_ciphertexts_into_glwes(&ct);
    for i in 0..6 {
        let ua = decomp_a.unpack(&packed, i).unwrap();
        let ub = decomp_b.unpack(&packed, i).unwrap();
        assert_eq!(ua.ct.data, ub.ct.data);
        assert_eq!(cks.decrypt_message_and_carry(&ua), f(i as u64));
    }
}
