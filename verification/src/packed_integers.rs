//! Dense bit-packing of fixed-width unsigned values into 64-bit words.
//!
//! Values are laid out lowest-bit-first with no padding between them, so a
//! value may straddle a word boundary; only the final word may be partially
//! used.  Packing is lossless for inputs that fit in `log_modulus` bits: the
//! contracts below pin every reconstructed value to the original input.

use vstd::arithmetic::div_mod::{
    lemma_div_is_ordered, lemma_fundamental_div_mod, lemma_fundamental_div_mod_converse,
};
use vstd::arithmetic::mul::lemma_mul_inequality;
use vstd::prelude::*;

use crate::parameters::CiphertextModulusLog;

verus! {

/// Mask with the `l` lowest bits set.
pub open spec fn mask64(l: u64) -> u64 {
    if l >= 64 {
        u64::MAX
    } else if l == 0 {
        0u64
    } else {
        u64::MAX >> ((64 - l) as u64)
    }
}

/// Number of 64-bit words needed to hold `n` values of `l` bits each.
pub open spec fn word_count(n: int, l: int) -> int {
    (n * l + 63) / 64
}

/// The `l`-bit value at logical index `i` of the packed word sequence,
/// reconstructed by shift and mask: its bits occupy the half-open bit range
/// `[i*l, (i+1)*l)` of the word stream, lowest bit first.
pub open spec fn value_at(words: Seq<u64>, l: int, i: int) -> u64 {
    let start = i * l;
    let sb = start / 64;
    let sr = start % 64;
    let eb = (start + l - 1) / 64;
    if sb == eb {
        (words[sb] >> (sr as u64)) & mask64(l as u64)
    } else {
        ((words[sb] >> (sr as u64)) | (words[sb + 1] << ((64 - sr) as u64))) & mask64(l as u64)
    }
}

/// The whole logical contents of a packed word sequence.
pub open spec fn unpacked_seq(words: Seq<u64>, l: int, n: int) -> Seq<u64> {
    Seq::new(n as nat, |i: int| value_at(words, l, i))
}

/// A dense bit-packed encoding of `initial_len` unsigned values of
/// `log_modulus` bits each.
pub struct PackedIntegers {
    pub packed_coeffs: Vec<u64>,
    pub log_modulus: CiphertextModulusLog,
    pub initial_len: usize,
}

impl PackedIntegers {
    /// Structural invariant: a valid bit width, no index arithmetic overflow,
    /// and exactly as many words as the packed bits require.
    pub open spec fn wf(&self) -> bool {
        &&& 1 <= self.log_modulus.0 <= 64
        &&& (self.initial_len as int) * (self.log_modulus.0 as int) <= usize::MAX as int
        &&& self.packed_coeffs@.len() == word_count(
            self.initial_len as int,
            self.log_modulus.0 as int,
        )
    }

    /// The sequence of values this packing stores.
    pub open spec fn contents(&self) -> Seq<u64> {
        unpacked_seq(self.packed_coeffs@, self.log_modulus.0 as int, self.initial_len as int)
    }

    /// Packs `slice` at `log_modulus` bits per value, lowest bit first,
    /// across word boundaries with no padding between values.
    pub fn pack(slice: &[u64], log_modulus: CiphertextModulusLog) -> (r: Self)
        requires
            1 <= log_modulus.0 <= 64,
            slice@.len() * log_modulus.0 <= usize::MAX,
            forall|i: int| 0 <= i < slice@.len() ==> slice@[i] <= mask64(log_modulus.0 as u64),
        ensures
            r.wf(),
            r.log_modulus == log_modulus,
            r.initial_len == slice@.len(),
            r.contents() =~= slice@,
            // only the final word may be partially used, and its bits past
            // the last packed value are clear
            forall|j: int|
                (slice@.len() * log_modulus.0) / 64 < j < r.packed_coeffs@.len()
                    ==> r.packed_coeffs@[j] == 0u64,
            (slice@.len() * log_modulus.0) / 64 < r.packed_coeffs@.len()
                ==> r.packed_coeffs@[(slice@.len() * log_modulus.0) / 64] >> (((slice@.len()
                * log_modulus.0) % 64) as u64) == 0u64,
    {
        let l = log_modulus.0;
        let n = slice.len();
        let number_bits_to_pack = n * l;
        let len = if number_bits_to_pack % 64 == 0 {
            number_bits_to_pack / 64
        } else {
            number_bits_to_pack / 64 + 1
        };
        proof {
            lemma_ceil_div64(n as int, l as int);
        }

        let mut words: Vec<u64> = Vec::new();
        while words.len() < len
            invariant
                words@.len() <= len,
                forall|j: int| 0 <= j < words@.len() ==> words@[j] == 0u64,
            decreases len - words@.len(),
        {
            words.push(0u64);
        }

        proof {
            assert(forall|s: u64| s < 64 ==> #[trigger] (0u64 >> s) == 0u64) by (bit_vector);
        }
        let mut i: usize = 0;
        while i < n
            invariant
                1 <= l <= 64,
                l == log_modulus.0,
                n == slice@.len(),
                (n as int) * (l as int) <= usize::MAX as int,
                forall|i2: int| 0 <= i2 < n ==> slice@[i2] <= mask64(l as u64),
                words@.len() == word_count(n as int, l as int),
                i <= n,
                forall|j: int|
                    ((i as int) * (l as int)) / 64 < j < words@.len() ==> words@[j] == 0u64,
                ((i as int) * (l as int)) / 64 < words@.len() ==> words@[((i as int) * (l as int))
                    / 64] >> ((((i as int) * (l as int)) % 64) as u64) == 0u64,
                forall|i2: int|
                    0 <= i2 < i ==> value_at(words@, l as int, i2) == slice@[i2],
            decreases n - i,
        {
            proof {
                lemma_mul_inequality(i as int + 1, n as int, l as int);
                lemma_mul_inequality(i as int, n as int, l as int);
            }
            let off = i * l;
            let j = off / 64;
            let r = off % 64;
            let v = slice[i];
            let ghost old_words = words@;
            proof {
                lemma_fundamental_div_mod(off as int, 64);
                lemma_word_count_bound(n as int, l as int);
                // off + l <= n * l <= 64 * word_count, so word j is in range
                assert((i as int) * (l as int) + l <= (n as int) * (l as int)) by {
                    lemma_mul_inequality(i as int + 1, n as int, l as int);
                    assert((i as int + 1) * (l as int) == (i as int) * (l as int) + l as int)
                        by (nonlinear_arith);
                }
            }
            words[j] = words[j] | (v << (r as u64));
            if r + l > 64 {
                proof {
                    lemma_split64(j as int + 1, (r + l - 64) as int);
                }
                words[j + 1] = v >> ((64 - r) as u64);
            }
            proof {
                lemma_pack_step(old_words, words@, slice@, l as int, i as int, j as int, r as int);
            }
            i += 1;
        }
        PackedIntegers { packed_coeffs: words, log_modulus, initial_len: n }
    }

    /// Reads back all `initial_len` packed values, in order, never reading
    /// beyond the stored words.  For each index the needed bits lie in one
    /// word or straddle two; both cases reconstruct by shift and mask.
    pub fn unpack(&self) -> (r: Vec<u64>)
        requires
            self.wf(),
        ensures
            r@ =~= self.contents(),
            r@.len() == self.initial_len,
            forall|i: int| 0 <= i < r@.len() ==> r@[i] <= mask64(self.log_modulus.0 as u64),
    {
        let l = self.log_modulus.0;
        let n = self.initial_len;
        // l lowest bits set to 1
        let mask: u64 = if l == 64 {
            u64::MAX
        } else {
            u64::MAX >> ((64 - l) as u64)
        };
        let mut out: Vec<u64> = Vec::new();
        let mut i: usize = 0;
        while i < n
            invariant
                self.wf(),
                l == self.log_modulus.0,
                n == self.initial_len,
                mask == mask64(l as u64),
                i <= n,
                out@.len() == i,
                forall|i2: int|
                    0 <= i2 < i ==> out@[i2] == value_at(
                        self.packed_coeffs@,
                        l as int,
                        i2,
                    ),
                forall|i2: int| 0 <= i2 < i ==> out@[i2] <= mask64(l as u64),
            decreases n - i,
        {
            proof {
                lemma_mul_inequality(i as int + 1, n as int, l as int);
                lemma_mul_inequality(i as int, n as int, l as int);
                assert((i as int + 1) * (l as int) == (i as int) * (l as int) + l as int)
                    by (nonlinear_arith);
            }
            let start = i * l;
            let end = start + l;
            let start_block = start / 64;
            let start_remainder = start % 64;
            let end_block_inclusive = (end - 1) / 64;
            proof {
                lemma_fundamental_div_mod(start as int, 64);
                lemma_fundamental_div_mod(end as int - 1, 64);
                lemma_word_count_bound(n as int, l as int);
                lemma_div_is_ordered(end as int - 1, (n as int) * (l as int) - 1, 64);
                lemma_div_is_ordered(
                    (n as int) * (l as int) - 1,
                    64 * self.packed_coeffs@.len() - 1,
                    64,
                );
                lemma_split64(self.packed_coeffs@.len() as int - 1, 63);
                lemma_div_is_ordered(start as int, end as int - 1, 64);
            }
            let value: u64 = if start_block == end_block_inclusive {
                proof {
                    lemma_same_block_low_remainder(
                        start as int,
                        l as int,
                        start_block as int,
                        start_remainder as int,
                    );
                }
                (self.packed_coeffs[start_block] >> (start_remainder as u64)) & mask
            } else {
                proof {
                    lemma_cross_block_high_remainder(
                        start as int,
                        l as int,
                        start_block as int,
                        start_remainder as int,
                    );
                }
                let first_part = self.packed_coeffs[start_block] >> (start_remainder as u64);
                let second_part = self.packed_coeffs[start_block + 1] << ((64 - start_remainder)
                    as u64);
                (first_part | second_part) & mask
            };
            proof {
                lemma_mask_bounds(l as u64);
            }
            out.push(value);
            i += 1;
        }
        out
    }
}

/// The two expressions for a ceiling division by 64 agree.
pub(crate) proof fn lemma_ceil_div64(n: int, l: int)
    requires
        0 <= n * l,
    ensures
        word_count(n, l) == if (n * l) % 64 == 0 {
            (n * l) / 64
        } else {
            (n * l) / 64 + 1
        },
{
    let nb = n * l;
    lemma_fundamental_div_mod(nb, 64);
    let q = nb / 64;
    let s = nb % 64;
    if s == 0 {
        lemma_fundamental_div_mod_converse(nb + 63, 64, q, 63);
    } else {
        lemma_fundamental_div_mod_converse(nb + 63, 64, q + 1, s - 1);
    }
}

/// The packed words can hold all `n * l` bits: `n * l <= 64 * word_count`.
proof fn lemma_word_count_bound(n: int, l: int)
    requires
        0 <= n * l,
    ensures
        n * l <= 64 * word_count(n, l),
{
    lemma_fundamental_div_mod(n * l + 63, 64);
}

/// Splitting a bit offset `64*j + a` into word index and in-word offset.
proof fn lemma_split64(j: int, a: int)
    requires
        0 <= j,
        0 <= a < 64,
    ensures
        (64 * j + a) / 64 == j,
        (64 * j + a) % 64 == a,
{
    lemma_fundamental_div_mod_converse(64 * j + a, 64, j, a);
}

/// If a value's bits end in the word they start in, the in-word offset
/// leaves room for all `l` bits.
proof fn lemma_same_block_low_remainder(start: int, l: int, sb: int, sr: int)
    requires
        0 <= start,
        1 <= l <= 64,
        sb == start / 64,
        sr == start % 64,
        (start + l - 1) / 64 == sb,
    ensures
        sr + l <= 64,
{
    lemma_fundamental_div_mod(start, 64);
    if sr + l > 64 {
        lemma_split64(sb + 1, sr + l - 1 - 64);
    }
}

/// If a value's bits end one word after the one they start in, the value
/// genuinely straddles the boundary and the in-word offset is positive.
proof fn lemma_cross_block_high_remainder(start: int, l: int, sb: int, sr: int)
    requires
        0 <= start,
        1 <= l <= 64,
        sb == start / 64,
        sr == start % 64,
        (start + l - 1) / 64 != sb,
    ensures
        sr + l > 64,
        1 <= sr < 64,
        (start + l - 1) / 64 == sb + 1,
{
    lemma_fundamental_div_mod(start, 64);
    if sr + l <= 64 {
        lemma_split64(sb, sr + l - 1);
    }
    lemma_split64(sb + 1, sr + l - 1 - 64);
}

/// Bounds relating a value to the mask of its bit width.
proof fn lemma_mask_bounds(l: u64)
    by (bit_vector)
    requires
        1 <= l <= 64,
    ensures
        forall|v: u64, m: u64| #[trigger] (v & m) <= m,
{
}

/// Placing `v` at in-word offset `r` of a word whose bits at and above `r`
/// are clear makes the masked read-back at `r` return exactly `v`, and
/// keeps the bits at and above `r + l` clear.
proof fn lemma_place_single(w: u64, v: u64, r: u64, l: u64)
    by (bit_vector)
    requires
        1 <= l,
        l <= 64,
        r < 64,
        r + l <= 64,
        w >> r == 0,
        v <= mask64(l),
    ensures
        ((w | (v << r)) >> r) & mask64(l) == v,
        r + l < 64 ==> (w | (v << r)) >> ((r + l) as u64) == 0,
{
}

/// Placing a straddling `v` writes its low `64 - r` bits into the first
/// word and its remaining high bits into the next word; the two-word
/// masked read-back returns exactly `v`, and the next word's bits at and
/// above `r + l - 64` stay clear.
proof fn lemma_place_cross(w: u64, v: u64, r: u64, l: u64)
    by (bit_vector)
    requires
        1 <= l,
        l <= 64,
        1 <= r < 64,
        r + l > 64,
        w >> r == 0,
        v <= mask64(l),
    ensures
        (((w | (v << r)) >> r) | ((v >> ((64 - r) as u64)) << ((64 - r) as u64))) & mask64(l) == v,
        (v >> ((64 - r) as u64)) >> ((r + l - 64) as u64) == 0,
{
}

/// OR-ing bits at offsets `>= r` into a word does not change a masked
/// read that uses only bits below `r`.
proof fn lemma_preserve_single(w: u64, x: u64, sr: u64, l: u64, r: u64)
    by (bit_vector)
    requires
        1 <= l,
        l <= 64,
        sr < 64,
        r < 64,
        sr + l <= r,
        x & mask64(r) == 0,
    ensures
        ((w | x) >> sr) & mask64(l) == (w >> sr) & mask64(l),
{
}

/// OR-ing bits at offsets `>= r` into the second word of a straddling
/// read does not change the read when it uses only bits below `r` of
/// that word.
proof fn lemma_preserve_cross(a: u64, w: u64, x: u64, sr: u64, l: u64, r: u64)
    by (bit_vector)
    requires
        1 <= l,
        l <= 64,
        1 <= sr < 64,
        sr + l > 64,
        sr + l - 64 <= r,
        r < 64,
        x & mask64(r) == 0,
    ensures
        ((a >> sr) | ((w | x) << ((64 - sr) as u64))) & mask64(l) == ((a >> sr) | (w << ((64 - sr)
            as u64))) & mask64(l),
{
}

/// A left shift by `r` clears the low `r` bits.
proof fn lemma_shift_clears_low(v: u64, r: u64)
    by (bit_vector)
    requires
        r < 64,
    ensures
        (v << r) & mask64(r) == 0,
{
}

/// One step of the packing loop: writing value `i` of the input at bit
/// offset `i * l` preserves every already-placed value, makes value `i`
/// readable, and keeps all higher bits clear.
proof fn lemma_pack_step(
    old_words: Seq<u64>,
    new_words: Seq<u64>,
    values: Seq<u64>,
    l: int,
    i: int,
    j: int,
    r: int,
)
    requires
        1 <= l <= 64,
        0 <= i < values.len(),
        (values.len() as int) * l <= usize::MAX as int,
        forall|i2: int| 0 <= i2 < values.len() ==> values[i2] <= mask64(l as u64),
        old_words.len() == word_count(values.len() as int, l),
        j == (i * l) / 64,
        r == (i * l) % 64,
        j < old_words.len(),
        r + l > 64 ==> j + 1 < old_words.len(),
        forall|j2: int| j < j2 < old_words.len() ==> old_words[j2] == 0u64,
        old_words[j] >> (r as u64) == 0u64,
        forall|i2: int| 0 <= i2 < i ==> value_at(old_words, l, i2) == values[i2],
        r + l <= 64 ==> new_words =~= old_words.update(
            j,
            old_words[j] | (values[i] << (r as u64)),
        ),
        r + l > 64 ==> new_words =~= old_words.update(
            j,
            old_words[j] | (values[i] << (r as u64)),
        ).update(j + 1, values[i] >> ((64 - r) as u64)),
    ensures
        forall|j2: int|
            ((i + 1) * l) / 64 < j2 < new_words.len() ==> new_words[j2] == 0u64,
        ((i + 1) * l) / 64 < new_words.len() ==> new_words[((i + 1) * l) / 64] >> ((((i + 1) * l)
            % 64) as u64) == 0u64,
        forall|i2: int| 0 <= i2 < i + 1 ==> value_at(new_words, l, i2) == values[i2],
{
    let v = values[i];
    let off = i * l;
    lemma_fundamental_div_mod(off, 64);
    assert(0 <= r < 64);
    assert((i + 1) * l == i * l + l) by (nonlinear_arith);
    assert(off == 64 * j + r);
    assert(forall|s: u64| s < 64 ==> #[trigger] (0u64 >> s) == 0u64) by (bit_vector);
    lemma_shift_clears_low(v, r as u64);
    // where the next value will start
    if r + l < 64 {
        lemma_split64(j, r + l);
        lemma_place_single(old_words[j], v, r as u64, l as u64);
    } else if r + l == 64 {
        lemma_split64(j + 1, 0);
        lemma_place_single(old_words[j], v, r as u64, l as u64);
    } else {
        lemma_split64(j + 1, r + l - 64);
        lemma_place_cross(old_words[j], v, r as u64, l as u64);
    }
    // the new value reads back as placed
    assert(value_at(new_words, l, i) == v) by {
        lemma_split64(j, r);
        assert(off / 64 == j);
        assert(off % 64 == r);
        if r + l <= 64 {
            if r + l < 64 {
                lemma_split64(j, r + l - 1);
            } else {
                lemma_split64(j, 63);
            }
            assert((off + l - 1) / 64 == j);
            assert(new_words[j] == (old_words[j] | (v << (r as u64))));
            lemma_place_single(old_words[j], v, r as u64, l as u64);
            assert(((new_words[j] >> (r as u64)) & mask64(l as u64)) == v);
        } else {
            lemma_split64(j + 1, r + l - 1 - 64);
            assert((off + l - 1) / 64 == j + 1);
            assert(new_words[j] == (old_words[j] | (v << (r as u64))));
            assert(new_words[j + 1] == (v >> ((64 - r) as u64)));
            lemma_place_cross(old_words[j], v, r as u64, l as u64);
            assert((((new_words[j] >> (r as u64)) | (new_words[j + 1] << ((64 - r) as u64)))
                & mask64(l as u64)) == v);
        }
    }
    // every earlier value reads back unchanged
    assert forall|i2: int| 0 <= i2 < i implies value_at(new_words, l, i2) == values[i2] by {
        let s2 = i2 * l;
        let sb2 = s2 / 64;
        let sr2 = s2 % 64;
        let eb2 = (s2 + l - 1) / 64;
        lemma_fundamental_div_mod(s2, 64);
        assert(s2 + l <= off) by {
            lemma_mul_inequality(i2 + 1, i, l);
            assert((i2 + 1) * l == i2 * l + l) by (nonlinear_arith);
        }
        assert(s2 >= 0) by {
            lemma_mul_inequality(0, i2, l);
        }
        lemma_div_is_ordered(0, s2, 64);
        lemma_div_is_ordered(s2 + l - 1, off - 1, 64);
        lemma_div_is_ordered(s2, s2 + l - 1, 64);
        if r == 0 {
            lemma_split64(j - 1, 63);
        } else {
            lemma_split64(j, r - 1);
        }
        // eb2 <= (off - 1) / 64 <= j, and sb2 <= eb2
        if eb2 < j {
            // reads only untouched words
            assert(value_at(new_words, l, i2) == value_at(old_words, l, i2));
        } else {
            assert(eb2 == j);
            if sb2 == eb2 {
                assert(64 * j + sr2 + l <= 64 * j + r);
                lemma_preserve_single(
                    old_words[j],
                    v << (r as u64),
                    sr2 as u64,
                    l as u64,
                    r as u64,
                );
            } else {
                assert(sb2 == j - 1);
                assert(sr2 + l > 64) by {
                    if sr2 + l <= 64 {
                        lemma_split64(sb2, sr2 + l - 1);
                    }
                }
                assert(sr2 + l - 64 <= r);
                lemma_preserve_cross(
                    old_words[sb2],
                    old_words[j],
                    v << (r as u64),
                    sr2 as u64,
                    l as u64,
                    r as u64,
                );
            }
        }
    }
}

} // verus!
