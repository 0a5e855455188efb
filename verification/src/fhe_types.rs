//! The catalogue of user-facing value types, and the mapping from a
//! stored entry kind (and the message base it was encoded with) to the
//! type a reader should request for it.

use vstd::prelude::*;

use crate::container::{DataKind, GlwePackedCompressedCiphertextList};
use crate::parameters::MessageModulus;

verus! {

/// The user-facing value types of the scheme.
#[derive(Clone, Copy, Debug, PartialEq, Eq, Structural)]
pub enum FheTypes {
    Bool,
    Uint2,
    Uint4,
    Uint6,
    Uint8,
    Uint10,
    Uint12,
    Uint14,
    Uint16,
    Uint32,
    Uint64,
    Uint128,
    Uint160,
    Uint256,
    Int2,
    Int4,
    Int6,
    Int8,
    Int10,
    Int12,
    Int14,
    Int16,
    Int32,
    Int64,
    Int128,
    Int160,
    Int256,
}

/// The unsigned type carrying exactly `num_bits` bits, if one exists.
pub open spec fn unsigned_type_of_bits(num_bits: int) -> Option<FheTypes> {
    if num_bits == 2 {
        Some(FheTypes::Uint2)
    } else if num_bits == 4 {
        Some(FheTypes::Uint4)
    } else if num_bits == 6 {
        Some(FheTypes::Uint6)
    } else if num_bits == 8 {
        Some(FheTypes::Uint8)
    } else if num_bits == 10 {
        Some(FheTypes::Uint10)
    } else if num_bits == 12 {
        Some(FheTypes::Uint12)
    } else if num_bits == 14 {
        Some(FheTypes::Uint14)
    } else if num_bits == 16 {
        Some(FheTypes::Uint16)
    } else if num_bits == 32 {
        Some(FheTypes::Uint32)
    } else if num_bits == 64 {
        Some(FheTypes::Uint64)
    } else if num_bits == 128 {
        Some(FheTypes::Uint128)
    } else if num_bits == 160 {
        Some(FheTypes::Uint160)
    } else if num_bits == 256 {
        Some(FheTypes::Uint256)
    } else {
        None
    }
}

/// The signed type carrying exactly `num_bits` bits, if one exists.
pub open spec fn signed_type_of_bits(num_bits: int) -> Option<FheTypes> {
    if num_bits == 2 {
        Some(FheTypes::Int2)
    } else if num_bits == 4 {
        Some(FheTypes::Int4)
    } else if num_bits == 6 {
        Some(FheTypes::Int6)
    } else if num_bits == 8 {
        Some(FheTypes::Int8)
    } else if num_bits == 10 {
        Some(FheTypes::Int10)
    } else if num_bits == 12 {
        Some(FheTypes::Int12)
    } else if num_bits == 14 {
        Some(FheTypes::Int14)
    } else if num_bits == 16 {
        Some(FheTypes::Int16)
    } else if num_bits == 32 {
        Some(FheTypes::Int32)
    } else if num_bits == 64 {
        Some(FheTypes::Int64)
    } else if num_bits == 128 {
        Some(FheTypes::Int128)
    } else if num_bits == 160 {
        Some(FheTypes::Int160)
    } else if num_bits == 256 {
        Some(FheTypes::Int256)
    } else {
        None
    }
}

/// Floor of the base-two logarithm: the largest `b` with
/// `2^b <= message_modulus`, and zero below two.
pub open spec fn floor_log2(m: int) -> int
    decreases m,
{
    if m < 2 {
        0
    } else {
        1 + floor_log2(m / 2)
    }
}

/// Bits of payload per block for a message base: the floor of its
/// base-two logarithm.
pub open spec fn spec_bits_per_block(message_modulus: int) -> int {
    floor_log2(message_modulus)
}

/// The floored logarithm is never negative.
proof fn lemma_floor_log2_nonneg(m: int)
    ensures
        floor_log2(m) >= 0,
    decreases m,
{
    if m >= 2 {
        lemma_floor_log2_nonneg(m / 2);
    }
}

/// The user-facing type a stored kind decodes to, given the message base:
/// booleans map to the boolean type, radix entries to the type of exactly
/// their total bit width, and widths that no type carries map to nothing.
pub open spec fn spec_fhe_type_of_kind(kind: DataKind, message_modulus: int) -> Option<
    FheTypes,
> {
    match kind {
        DataKind::Boolean => Some(FheTypes::Bool),
        DataKind::Unsigned(n) => unsigned_type_of_bits(
            (n as int) * spec_bits_per_block(message_modulus),
        ),
        DataKind::Signed(n) => signed_type_of_bits(
            (n as int) * spec_bits_per_block(message_modulus),
        ),
    }
}

/// Maps a stored kind to the type a reader should request, as the
/// specification above states.  Message bases whose block width is not
/// supported by the catalogue map every radix kind to nothing.
pub fn fhe_type_of_kind(kind: DataKind, message_modulus: MessageModulus) -> (r: Option<FheTypes>)
    requires
        1 <= message_modulus.0 <= 0x8000_0000,
    ensures
        r == spec_fhe_type_of_kind(kind, message_modulus.0 as int),
{
    // no catalogue type carries more than a few hundred bits, so very
    // wide entries map to nothing before any width arithmetic
    if kind.num_blocks() > 0x1000 {
        proof {
            if spec_bits_per_block(message_modulus.0 as int) >= 1 {
                assert(kind.num_blocks_spec() * spec_bits_per_block(message_modulus.0 as int)
                    > 0x1000) by (nonlinear_arith)
                    requires
                        kind.num_blocks_spec() > 0x1000,
                        spec_bits_per_block(message_modulus.0 as int) >= 1,
                ;
            } else {
                assert(spec_bits_per_block(message_modulus.0 as int) >= 0) by {
                    lemma_floor_log2_nonneg(message_modulus.0 as int);
                }
                assert(kind.num_blocks_spec() * spec_bits_per_block(message_modulus.0 as int)
                    == 0) by (nonlinear_arith)
                    requires
                        spec_bits_per_block(message_modulus.0 as int) == 0,
                ;
            }
        }
        return match kind {
            DataKind::Boolean => Some(FheTypes::Bool),
            DataKind::Unsigned(_) => None,
            DataKind::Signed(_) => None,
        };
    }
    let mut bits_per_block: usize = 0;
    let mut v: usize = message_modulus.0;
    while v >= 2
        invariant
            1 <= v,
            (v as int) * crate::parameters::pow2_int(bits_per_block as int)
                <= message_modulus.0 as int,
            floor_log2(message_modulus.0 as int) == bits_per_block + floor_log2(v as int),
            message_modulus.0 <= 0x8000_0000,
            bits_per_block <= 31,
        decreases v,
    {
        proof {
            vstd::arithmetic::div_mod::lemma_fundamental_div_mod(v as int, 2);
            crate::parameters::lemma_pow2_int_pos(bits_per_block as int);
            assert((v as int / 2) * crate::parameters::pow2_int(bits_per_block as int + 1) <= (
            v as int) * crate::parameters::pow2_int(bits_per_block as int)) by (nonlinear_arith)
                requires
                    crate::parameters::pow2_int(bits_per_block as int + 1) == 2
                        * crate::parameters::pow2_int(bits_per_block as int),
                    crate::parameters::pow2_int(bits_per_block as int) >= 1,
                    2 * (v as int / 2) <= v as int,
                    v >= 2,
            ;
            if bits_per_block >= 31 {
                crate::parameters::lemma_pow2_int_agrees(32);
                vstd::arithmetic::power2::lemma2_to64();
                assert((v as int / 2) * crate::parameters::pow2_int(32) >= crate::parameters::pow2_int(
                    32,
                )) by (nonlinear_arith)
                    requires
                        (v as int / 2) >= 1,
                        crate::parameters::pow2_int(32) >= 0,
                ;
                assert(false);
            }
        }
        v = v / 2;
        bits_per_block = bits_per_block + 1;
    }
    proof {
        assert((kind.num_blocks_spec()) * (bits_per_block as int) <= 0x1000 * 31)
            by (nonlinear_arith)
            requires
                0 <= kind.num_blocks_spec() <= 0x1000,
                0 <= bits_per_block <= 31,
        ;
    }
    match kind {
        DataKind::Boolean => Some(FheTypes::Bool),
        DataKind::Unsigned(n) => {
            let num_bits = n * bits_per_block;
            if num_bits == 2 {
                Some(FheTypes::Uint2)
            } else if num_bits == 4 {
                Some(FheTypes::Uint4)
            } else if num_bits == 6 {
                Some(FheTypes::Uint6)
            } else if num_bits == 8 {
                Some(FheTypes::Uint8)
            } else if num_bits == 10 {
                Some(FheTypes::Uint10)
            } else if num_bits == 12 {
                Some(FheTypes::Uint12)
            } else if num_bits == 14 {
                Some(FheTypes::Uint14)
            } else if num_bits == 16 {
                Some(FheTypes::Uint16)
            } else if num_bits == 32 {
                Some(FheTypes::Uint32)
            } else if num_bits == 64 {
                Some(FheTypes::Uint64)
            } else if num_bits == 128 {
                Some(FheTypes::Uint128)
            } else if num_bits == 160 {
                Some(FheTypes::Uint160)
            } else if num_bits == 256 {
                Some(FheTypes::Uint256)
            } else {
                None
            }
        },
        DataKind::Signed(n) => {
            let num_bits = n * bits_per_block;
            if num_bits == 2 {
                Some(FheTypes::Int2)
            } else if num_bits == 4 {
                Some(FheTypes::Int4)
            } else if num_bits == 6 {
                Some(FheTypes::Int6)
            } else if num_bits == 8 {
                Some(FheTypes::Int8)
            } else if num_bits == 10 {
                Some(FheTypes::Int10)
            } else if num_bits == 12 {
                Some(FheTypes::Int12)
            } else if num_bits == 14 {
                Some(FheTypes::Int14)
            } else if num_bits == 16 {
                Some(FheTypes::Int16)
            } else if num_bits == 32 {
                Some(FheTypes::Int32)
            } else if num_bits == 64 {
                Some(FheTypes::Int64)
            } else if num_bits == 128 {
                Some(FheTypes::Int128)
            } else if num_bits == 160 {
                Some(FheTypes::Int160)
            } else if num_bits == 256 {
                Some(FheTypes::Int256)
            } else {
                None
            }
        },
    }
}

/// Whether entry `index` of `list` decodes to the type `expected`: the
/// width check a reader performs before requesting a value, combining
/// the kind lookup with the catalogue above.
pub fn kind_decodes_to(
    list: &GlwePackedCompressedCiphertextList,
    index: usize,
    message_modulus: MessageModulus,
    expected: FheTypes,
) -> (r: bool)
    requires
        1 <= message_modulus.0 <= 0x8000_0000,
    ensures
        r == (index < list.info@.len() && spec_fhe_type_of_kind(
            list.info@[index as int],
            message_modulus.0 as int,
        ) == Some(expected)),
{
    match list.get_kind_of(index) {
        Some(kind) => match fhe_type_of_kind(kind, message_modulus) {
            Some(found) => found == expected,
            None => false,
        },
        None => false,
    }
}

} // verus!
