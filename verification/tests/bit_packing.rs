//! Bit-packing round trips and boundary behaviour.

use glwe_compaction::packed_integers::PackedIntegers;
use glwe_compaction::parameters::CiphertextModulusLog;

fn round_trip(values: &[u64], log_modulus: usize) {
    let packed = PackedIntegers::pack(values, CiphertextModulusLog(log_modulus));
    let unpacked = packed.unpack();
    assert_eq!(unpacked.len(), values.len());
    for (a, b) in values.iter().zip(unpacked.iter()) {
        assert_eq!(a, b);
    }
}

#[test]
fn round_trip_single_values() {
    round_trip(&[0], 1);
    round_trip(&[1], 1);
    round_trip(&[0x1ffff], 17);
    round_trip(&[u64::MAX], 64);
    round_trip(&[0x1ff], 9);
}

#[test]
fn round_trip_sequences() {
    let values: Vec<u64> = (0..100).map(|i| i % 8).collect();
    round_trip(&values, 3);
    let values: Vec<u64> = (0..33).map(|i| (i * 37) % 512).collect();
    round_trip(&values, 9);
    let values: Vec<u64> = (0u64..7).map(|i| i.wrapping_mul(0x0123_4567_89ab_cdef)).collect();
    round_trip(&values, 64);
    let values: Vec<u64> = vec![1, 0, 1, 1, 0, 0, 1, 0, 1];
    round_trip(&values, 1);
}

#[test]
fn boundary_exact_word_multiple() {
    // 8 values of 8 bits fill exactly one 64-bit word
    let values: Vec<u64> = (0..8).map(|i| 0x10 + i).collect();
    let packed = PackedIntegers::pack(&values, CiphertextModulusLog(8));
    assert_eq!(packed.packed_coeffs.len(), 1);
    round_trip(&values, 8);
    // 64 values of 17 bits fill exactly seventeen words
    let values: Vec<u64> = (0..64).map(|i| i * 1000).collect();
    let packed = PackedIntegers::pack(&values, CiphertextModulusLog(17));
    assert_eq!(packed.packed_coeffs.len(), 17);
    round_trip(&values, 17);
}

#[test]
fn boundary_straddling_value() {
    // 17 does not divide 64: several values straddle word boundaries
    let values: Vec<u64> = vec![0x1aaaa, 0x05555, 0x1ffff, 0x00001, 0x12345];
    let packed = PackedIntegers::pack(&values, CiphertextModulusLog(17));
    // 5 * 17 = 85 bits use two words
    assert_eq!(packed.packed_coeffs.len(), 2);
    let unpacked = packed.unpack();
    assert_eq!(unpacked, values);
}

#[test]
fn word_count_formula() {
    for log_modulus in 1..=64usize {
        let values: Vec<u64> = (0..23)
            .map(|i: u64| {
                if log_modulus == 64 {
                    i.wrapping_mul(0x9e37_79b9_7f4a_7c15)
                } else {
                    i % (1u64 << log_modulus)
                }
            })
            .collect();
        let packed = PackedIntegers::pack(&values, CiphertextModulusLog(log_modulus));
        let expected = (values.len() * log_modulus).div_ceil(64);
        assert_eq!(packed.packed_coeffs.len(), expected);
        let unpacked = packed.unpack();
        assert_eq!(unpacked, values);
    }
}
