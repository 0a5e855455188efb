//! A word-stream codec for the persisted compaction artifact.
//!
//! The packed list and its kind descriptors are laid out as a flat
//! sequence of 64-bit words: scalars in place, vectors behind a length
//! prefix, enum variants behind a tag word.  Serialization is pinned to
//! the encoding spelled out by the spec functions below; whatever
//! deserialization accepts is well formed and re-encodes to exactly the
//! words consumed, and it accepts every input that starts with the
//! encoding of a well-formed artifact within the codec's caps, so
//! storing and reloading an artifact never fails and never changes what
//! was stored.

use vstd::prelude::*;

use crate::compressed_glwe::CompressedModulusSwitchedGlweCiphertext;
use crate::container::{
    lemma_prefix_blocks_bounds, lemma_total_blocks_at_least_len, prefix_blocks, total_blocks,
    DataKind, GlwePackedCompressedCiphertextList,
};
use crate::glwe_packed_list::{chunk_bodies, chunk_count, GlwePackedCiphertextList};
use crate::packed_integers::PackedIntegers;
use crate::parameters::{
    CarryModulus, CiphertextModulus, CiphertextModulusLog, GlweDimension, MessageModulus,
    PBSOrder, PolynomialSize,
};

verus! {

/// The encoding of a bit-packed integer store: its bit width, logical
/// length, and the stored words behind a length prefix.
pub open spec fn enc_packed_integers(p: PackedIntegers) -> Seq<u64> {
    seq![
        p.log_modulus.0 as u64,
        p.initial_len as u64,
        p.packed_coeffs@.len() as u64,
    ] + p.packed_coeffs@
}

/// The encoding of one compressed GLWE group.
pub open spec fn enc_compressed_glwe(g: CompressedModulusSwitchedGlweCiphertext) -> Seq<u64> {
    seq![
        g.glwe_dimension.0 as u64,
        g.polynomial_size.0 as u64,
        g.bodies_count as u64,
    ] + enc_packed_integers(g.packed_integers)
}

/// The encoding of a kind descriptor: a tag word and the block count.
pub open spec fn enc_data_kind(kind: DataKind) -> Seq<u64> {
    match kind {
        DataKind::Boolean => seq![0u64, 1u64],
        DataKind::Unsigned(n) => seq![1u64, n as u64],
        DataKind::Signed(n) => seq![2u64, n as u64],
    }
}

/// The tag word of a keyswitch-then-bootstrap order.
pub open spec fn enc_pbs_order(order: PBSOrder) -> u64 {
    match order {
        PBSOrder::KeyswitchBootstrap => 0u64,
        PBSOrder::BootstrapKeyswitch => 1u64,
    }
}

/// The encoding of the chunk sequence of a packed list, chunk by chunk.
pub open spec fn enc_chunks(chunks: Seq<CompressedModulusSwitchedGlweCiphertext>) -> Seq<u64>
    decreases chunks.len(),
{
    if chunks.len() == 0 {
        Seq::empty()
    } else {
        enc_chunks(chunks.drop_last()) + enc_compressed_glwe(chunks.last())
    }
}

/// The encoding of the kind list, entry by entry.
pub open spec fn enc_kinds(kinds: Seq<DataKind>) -> Seq<u64>
    decreases kinds.len(),
{
    if kinds.len() == 0 {
        Seq::empty()
    } else {
        enc_kinds(kinds.drop_last()) + enc_data_kind(kinds.last())
    }
}

/// The encoding of a packed ciphertext list: the global metadata, then
/// the chunks behind a count prefix.
pub open spec fn enc_packed_list(list: GlwePackedCiphertextList) -> Seq<u64> {
    seq![
        list.glwe_dimension.0 as u64,
        list.polynomial_size.0 as u64,
        list.message_modulus.0 as u64,
        list.carry_modulus.0 as u64,
        enc_pbs_order(list.pbs_order),
        list.lwe_per_glwe as u64,
        list.count as u64,
        list.compressed_modulus_switched_lwe_ciphertext@.len() as u64,
    ] + enc_chunks(list.compressed_modulus_switched_lwe_ciphertext@)
}

/// The encoding of the whole persisted artifact: the packed list, then
/// the kinds behind a count prefix.
pub open spec fn enc_container(list: GlwePackedCompressedCiphertextList) -> Seq<u64> {
    enc_packed_list(list.packed_list) + seq![list.info@.len() as u64] + enc_kinds(list.info@)
}

/// Appends the encoding of the artifact to `out`.
pub fn serialize_container(list: &GlwePackedCompressedCiphertextList, out: &mut Vec<u64>)
    requires
        list.wf(),
    ensures
        final(out)@ =~= old(out)@ + enc_container(*list),
{
    serialize_packed_list(&list.packed_list, out);
    out.push(list.info.len() as u64);
    let total = list.info.len();
    let mut k: usize = 0;
    let ghost mid = out@;
    while k < total
        invariant
            k <= total,
            total == list.info.len(),
            out@ =~= mid + enc_kinds(list.info@.take(k as int)),
        decreases total - k,
    {
        proof {
            assert(list.info@.take(k as int + 1).drop_last() =~= list.info@.take(k as int));
            assert(list.info@.take(k as int + 1).last() == list.info@[k as int]);
        }
        let kind = list.info[k];
        match kind {
            DataKind::Boolean => {
                out.push(0u64);
                out.push(1u64);
            },
            DataKind::Unsigned(n) => {
                out.push(1u64);
                out.push(n as u64);
            },
            DataKind::Signed(n) => {
                out.push(2u64);
                out.push(n as u64);
            },
        }
        k += 1;
    }
    proof {
        assert(list.info@.take(total as int) =~= list.info@);
    }
}

/// Appends the encoding of a packed list to `out`.
pub fn serialize_packed_list(list: &GlwePackedCiphertextList, out: &mut Vec<u64>)
    requires
        list.wf(),
    ensures
        final(out)@ =~= old(out)@ + enc_packed_list(*list),
{
    out.push(list.glwe_dimension.0 as u64);
    out.push(list.polynomial_size.0 as u64);
    out.push(list.message_modulus.0 as u64);
    out.push(list.carry_modulus.0 as u64);
    match list.pbs_order {
        PBSOrder::KeyswitchBootstrap => out.push(0u64),
        PBSOrder::BootstrapKeyswitch => out.push(1u64),
    }
    out.push(list.lwe_per_glwe as u64);
    out.push(list.count as u64);
    out.push(list.compressed_modulus_switched_lwe_ciphertext.len() as u64);
    let total = list.compressed_modulus_switched_lwe_ciphertext.len();
    let mut k: usize = 0;
    let ghost mid = out@;
    while k < total
        invariant
            k <= total,
            total == list.compressed_modulus_switched_lwe_ciphertext.len(),
            out@ =~= mid + enc_chunks(
                list.compressed_modulus_switched_lwe_ciphertext@.take(k as int),
            ),
        decreases total - k,
    {
        proof {
            assert(list.compressed_modulus_switched_lwe_ciphertext@.take(k as int + 1).drop_last()
                =~= list.compressed_modulus_switched_lwe_ciphertext@.take(k as int));
            assert(list.compressed_modulus_switched_lwe_ciphertext@.take(k as int + 1).last()
                == list.compressed_modulus_switched_lwe_ciphertext@[k as int]);
        }
        serialize_compressed_glwe(&list.compressed_modulus_switched_lwe_ciphertext[k], out);
        k += 1;
    }
    proof {
        assert(list.compressed_modulus_switched_lwe_ciphertext@.take(total as int)
            =~= list.compressed_modulus_switched_lwe_ciphertext@);
    }
}

/// Appends the encoding of one compressed GLWE group to `out`.
fn serialize_compressed_glwe(glwe: &CompressedModulusSwitchedGlweCiphertext, out: &mut Vec<u64>)
    ensures
        final(out)@ =~= old(out)@ + enc_compressed_glwe(*glwe),
{
    out.push(glwe.glwe_dimension.0 as u64);
    out.push(glwe.polynomial_size.0 as u64);
    out.push(glwe.bodies_count as u64);
    out.push(glwe.packed_integers.log_modulus.0 as u64);
    out.push(glwe.packed_integers.initial_len as u64);
    out.push(glwe.packed_integers.packed_coeffs.len() as u64);
    let total = glwe.packed_integers.packed_coeffs.len();
    let mut k: usize = 0;
    let ghost mid = out@;
    while k < total
        invariant
            k <= total,
            total == glwe.packed_integers.packed_coeffs.len(),
            out@ =~= mid + glwe.packed_integers.packed_coeffs@.take(k as int),
        decreases total - k,
    {
        out.push(glwe.packed_integers.packed_coeffs[k]);
        k += 1;
    }
    proof {
        assert(glwe.packed_integers.packed_coeffs@.take(total as int)
            =~= glwe.packed_integers.packed_coeffs@);
    }
}

/// Reads one word, advancing the position.
fn read_word(words: &Vec<u64>, pos: usize) -> (r: Option<(u64, usize)>)
    ensures
        r is Some <==> pos < words@.len(),
        r is Some ==> (r->Some_0.0 == words@[pos as int] && r->Some_0.1 == pos + 1),
{
    if pos < words.len() {
        Some((words[pos], pos + 1))
    } else {
        None
    }
}

/// The hypothesis under which decoding a packed list is owed: a
/// well-formed list within the codec's caps is encoded at the start.
pub open spec fn packed_list_encoded(words: Seq<u64>, list: GlwePackedCiphertextList) -> bool {
    &&& list.wf()
    &&& list.glwe_dimension.0 < 0x20
    &&& list.message_modulus.0 <= 0x1000_0000
    &&& list.carry_modulus.0 <= 0x1000_0000
    &&& enc_packed_list(list).len() <= words.len()
    &&& words.take(enc_packed_list(list).len() as int) == enc_packed_list(list)
}

/// The header words of an encoded packed list, read off its layout.
proof fn lemma_list_header_words(words: Seq<u64>, list: GlwePackedCiphertextList)
    requires
        packed_list_encoded(words, list),
    ensures
        words.len() >= 8,
        enc_packed_list(list).len() == 8 + enc_chunks(
            list.compressed_modulus_switched_lwe_ciphertext@,
        ).len(),
        words[0] == list.glwe_dimension.0 as u64,
        words[1] == list.polynomial_size.0 as u64,
        words[2] == list.message_modulus.0 as u64,
        words[3] == list.carry_modulus.0 as u64,
        words[4] == enc_pbs_order(list.pbs_order),
        words[5] == list.lwe_per_glwe as u64,
        words[6] == list.count as u64,
        words[7] == list.compressed_modulus_switched_lwe_ciphertext@.len() as u64,
{
    let l = enc_packed_list(list).len() as int;
    assert forall|i: int| 0 <= i < 8 implies words[i] == enc_packed_list(list)[i] by {
        assert(words.take(l)[i] == words[i]);
    }
}

/// Stepping the chunk encoding by one chunk.
proof fn lemma_enc_chunks_step(s: Seq<CompressedModulusSwitchedGlweCiphertext>, c: int)
    requires
        0 <= c < s.len(),
    ensures
        enc_chunks(s.take(c + 1)) == enc_chunks(s.take(c)) + enc_compressed_glwe(s[c]),
{
    assert(s.take(c + 1).drop_last() =~= s.take(c));
    assert(s.take(c + 1).last() == s[c]);
}

/// The encoding of the first `c` chunks is a prefix of the encoding of
/// all of them.
proof fn lemma_enc_chunks_prefix(s: Seq<CompressedModulusSwitchedGlweCiphertext>, c: int)
    requires
        0 <= c <= s.len(),
    ensures
        enc_chunks(s.take(c)).len() <= enc_chunks(s).len(),
        enc_chunks(s).take(enc_chunks(s.take(c)).len() as int) == enc_chunks(s.take(c)),
    decreases s.len() - c,
{
    if c == s.len() {
        assert(s.take(c) =~= s);
        assert(enc_chunks(s).take(enc_chunks(s).len() as int) =~= enc_chunks(s));
    } else {
        lemma_enc_chunks_prefix(s, c + 1);
        lemma_enc_chunks_step(s, c);
        assert(enc_chunks(s).take(enc_chunks(s.take(c)).len() as int) =~= enc_chunks(s.take(c)));
    }
}

/// The hypothesis under which decoding a whole artifact is owed: a
/// well-formed artifact within the codec's caps is encoded at the start.
pub open spec fn container_encoded(
    words: Seq<u64>,
    list: GlwePackedCompressedCiphertextList,
) -> bool {
    &&& list.wf()
    &&& list.packed_list.glwe_dimension.0 < 0x20
    &&& list.packed_list.message_modulus.0 <= 0x1000_0000
    &&& list.packed_list.carry_modulus.0 <= 0x1000_0000
    &&& enc_container(list).len() <= words.len()
    &&& words.take(enc_container(list).len() as int) == enc_container(list)
}

/// An encoded artifact starts with its encoded packed list, followed by
/// the kind count.
proof fn lemma_container_implies_list(words: Seq<u64>, list: GlwePackedCompressedCiphertextList)
    requires
        container_encoded(words, list),
    ensures
        packed_list_encoded(words, list.packed_list),
        enc_packed_list(list.packed_list).len() < words.len(),
        words[enc_packed_list(list.packed_list).len() as int] == list.info@.len() as u64,
        enc_container(list).len() == enc_packed_list(list.packed_list).len() + 1 + enc_kinds(
            list.info@,
        ).len(),
{
    let lp = enc_packed_list(list.packed_list).len() as int;
    let lc = enc_container(list).len() as int;
    assert forall|i: int| 0 <= i < lp implies words[i] == enc_packed_list(list.packed_list)[i] by {
        assert(words.take(lc)[i] == words[i]);
    }
    assert(words.take(lp) =~= enc_packed_list(list.packed_list));
    assert(words.take(lc)[lp] == words[lp]);
    assert(enc_container(list)[lp] == list.info@.len() as u64);
}

/// Stepping the kind encoding by one entry.
proof fn lemma_enc_kinds_step(s: Seq<DataKind>, k: int)
    requires
        0 <= k < s.len(),
    ensures
        enc_kinds(s.take(k + 1)) == enc_kinds(s.take(k)) + enc_data_kind(s[k]),
{
    assert(s.take(k + 1).drop_last() =~= s.take(k));
    assert(s.take(k + 1).last() == s[k]);
}

/// The encoding of the first `k` kinds is a prefix of the encoding of
/// all of them.
proof fn lemma_enc_kinds_prefix(s: Seq<DataKind>, k: int)
    requires
        0 <= k <= s.len(),
    ensures
        enc_kinds(s.take(k)).len() <= enc_kinds(s).len(),
        enc_kinds(s).take(enc_kinds(s.take(k)).len() as int) == enc_kinds(s.take(k)),
    decreases s.len() - k,
{
    if k == s.len() {
        assert(s.take(k) =~= s);
        assert(enc_kinds(s).take(enc_kinds(s).len() as int) =~= enc_kinds(s));
    } else {
        lemma_enc_kinds_prefix(s, k + 1);
        lemma_enc_kinds_step(s, k);
        assert(enc_kinds(s).take(enc_kinds(s.take(k)).len() as int) =~= enc_kinds(s.take(k)));
    }
}

/// Decodes an artifact from the start of `words`.  A successful decode
/// returns a well-formed artifact whose encoding is exactly the consumed
/// prefix of `words`: nothing is lost or invented in storage.  Decoding
/// succeeds on every input at which a well-formed artifact within the
/// codec's caps is encoded.
pub fn deserialize_container(words: &Vec<u64>) -> (r: Option<(
    GlwePackedCompressedCiphertextList,
    usize,
)>)
    ensures
        r is Some ==> {
            let (list, end) = r->Some_0;
            &&& list.wf()
            &&& end <= words@.len()
            &&& words@.take(end as int) =~= enc_container(list)
        },
        forall|hl: GlwePackedCompressedCiphertextList| #[trigger] container_encoded(words@, hl)
            ==> (r is Some && r->Some_0.1 == enc_container(hl).len()),
{
    let ghost w = words@;
    let (packed_list, pos) = match deserialize_packed_list(words) {
        Some(v) => v,
        None => {
            proof {
                assert forall|hl: GlwePackedCompressedCiphertextList| container_encoded(
                    w,
                    hl,
                ) implies false by {
                    lemma_container_implies_list(w, hl);
                }
            }
            return None;
        },
    };
    let ghost pl_end = pos as int;
    let (kind_count_word, start) = match read_word(words, pos) {
        Some(v) => v,
        None => {
            proof {
                assert forall|hl: GlwePackedCompressedCiphertextList| container_encoded(
                    w,
                    hl,
                ) implies false by {
                    lemma_container_implies_list(w, hl);
                }
            }
            return None;
        },
    };
    proof {
        assert forall|hl: GlwePackedCompressedCiphertextList| container_encoded(w, hl) implies (
        pl_end == enc_packed_list(hl.packed_list).len() && kind_count_word == hl.info@.len() as u64
            && hl.info@.len() <= 0x1000_0000 && packed_list.count == hl.packed_list.count) by {
            lemma_container_implies_list(w, hl);
            lemma_total_blocks_at_least_len(hl.info@);
            assert(w.take(pl_end) =~= enc_packed_list(packed_list));
            assert(enc_packed_list(packed_list)[6] == enc_packed_list(hl.packed_list)[6]) by {
                assert(enc_packed_list(packed_list)[6] == w.take(pl_end)[6]);
                assert(w.take(enc_container(hl).len() as int)[6] == w[6]);
                assert(w.take(pl_end)[6] == w[6]);
            }
        }
    }
    if kind_count_word > 0x1000_0000 {
        proof {
            assert forall|hl: GlwePackedCompressedCiphertextList| container_encoded(
                w,
                hl,
            ) implies false by {
                assert(container_encoded(w, hl));
            }
        }
        return None;
    }
    let kind_count = kind_count_word as usize;
    let mut info: Vec<DataKind> = Vec::new();
    let mut running_total: usize = 0;
    let mut pos = start;
    let mut k: usize = 0;
    let ghost prefix = enc_packed_list(packed_list) + seq![kind_count_word];
    proof {
        assert(words@.take(start as int) =~= prefix);
        assert forall|hl: GlwePackedCompressedCiphertextList| container_encoded(w, hl) implies (
        kind_count == hl.info@.len() && start as int == enc_packed_list(hl.packed_list).len() + 1
            + enc_kinds(hl.info@.take(0)).len() && 0int == total_blocks(hl.info@.take(0))) by {
            assert(hl.info@.take(0) =~= Seq::<DataKind>::empty());
        }
    }
    while k < kind_count
        invariant
            k <= kind_count,
            info@.len() == k,
            pos <= words@.len(),
            w == words@,
            words@.take(pos as int) =~= prefix + enc_kinds(info@),
            forall|j: int| 0 <= j < k ==> #[trigger] info@[j].num_blocks_spec() >= 1,
            total_blocks(info@) == running_total,
            running_total <= 0x1000_0000,
            forall|hl: GlwePackedCompressedCiphertextList| #[trigger] container_encoded(w, hl)
                ==> (kind_count == hl.info@.len() && pos as int == enc_packed_list(
                hl.packed_list,
            ).len() + 1 + enc_kinds(hl.info@.take(k as int)).len() && running_total
                == total_blocks(hl.info@.take(k as int)) && packed_list.count
                == hl.packed_list.count),
        decreases kind_count - k,
    {
        proof {
            assert forall|hl: GlwePackedCompressedCiphertextList| container_encoded(w, hl) implies (
            w[pos as int] == enc_data_kind(hl.info@[k as int])[0] && w[pos as int + 1]
                == enc_data_kind(hl.info@[k as int])[1] && pos as int + 2 <= w.len()
                && prefix_blocks(hl.info@, k as int) == running_total && prefix_blocks(
                hl.info@,
                k as int,
            ) + hl.info@[k as int].num_blocks_spec() <= hl.packed_list.count) by {
                lemma_container_implies_list(w, hl);
                let ki = hl.info@;
                let lp = enc_packed_list(hl.packed_list).len() as int;
                let lc = enc_container(hl).len() as int;
                lemma_enc_kinds_step(ki, k as int);
                lemma_enc_kinds_prefix(ki, k as int + 1);
                lemma_prefix_blocks_bounds(ki, k as int);
                let ek = enc_kinds(ki.take(k as int));
                assert(enc_data_kind(ki[k as int]).len() == 2);
                assert(pos as int + 2 == lp + 1 + enc_kinds(ki.take(k as int + 1)).len());
                assert forall|t: int| 0 <= t < 2 implies w[pos as int + t] == enc_data_kind(
                    ki[k as int],
                )[t] by {
                    assert(w.take(lc)[pos as int + t] == w[pos as int + t]);
                    assert(enc_container(hl)[pos as int + t] == enc_kinds(ki)[pos as int + t - lp
                        - 1]);
                    assert(enc_kinds(ki).take(enc_kinds(ki.take(k as int + 1)).len() as int)[
                    pos as int + t - lp - 1] == enc_kinds(ki)[pos as int + t - lp - 1]);
                    assert(enc_kinds(ki.take(k as int + 1))[pos as int + t - lp - 1] == (ek
                        + enc_data_kind(ki[k as int]))[ek.len() + t]);
                }
            }
        }
        let (tag, next) = match read_word(words, pos) {
            Some(v) => v,
            None => {
                proof {
                    assert forall|hl: GlwePackedCompressedCiphertextList| container_encoded(
                        w,
                        hl,
                    ) implies false by {
                        assert(container_encoded(w, hl));
                    }
                }
                return None;
            },
        };
        let (count_word, next2) = match read_word(words, next) {
            Some(v) => v,
            None => {
                proof {
                    assert forall|hl: GlwePackedCompressedCiphertextList| container_encoded(
                        w,
                        hl,
                    ) implies false by {
                        assert(container_encoded(w, hl));
                    }
                }
                return None;
            },
        };
        if count_word == 0 || count_word > 0x1000_0000 || tag > 2 || (tag == 0 && count_word != 1)
        {
            proof {
                assert forall|hl: GlwePackedCompressedCiphertextList| container_encoded(
                    w,
                    hl,
                ) implies false by {
                    assert(container_encoded(w, hl));
                }
            }
            return None;
        }
        let block_count = count_word as usize;
        if running_total + block_count > 0x1000_0000 {
            proof {
                assert forall|hl: GlwePackedCompressedCiphertextList| container_encoded(
                    w,
                    hl,
                ) implies false by {
                    assert(container_encoded(w, hl));
                    assert(hl.packed_list.count <= 0x1000_0000);
                }
            }
            return None;
        }
        let kind = if tag == 0 {
            DataKind::Boolean
        } else if tag == 1 {
            DataKind::Unsigned(block_count)
        } else {
            DataKind::Signed(block_count)
        };
        proof {
            assert(info@.push(kind).drop_last() =~= info@);
            assert(words@.take(next2 as int) =~= words@.take(pos as int) + seq![
                words@[pos as int],
                words@[next as int],
            ]);
            assert forall|hl: GlwePackedCompressedCiphertextList| container_encoded(w, hl) implies (
            next2 as int == enc_packed_list(hl.packed_list).len() + 1 + enc_kinds(
                hl.info@.take(k as int + 1),
            ).len() && running_total + block_count == total_blocks(hl.info@.take(k as int + 1)))
                by {
                let ki = hl.info@;
                lemma_enc_kinds_step(ki, k as int);
                lemma_prefix_blocks_bounds(ki, k as int);
                assert(enc_data_kind(ki[k as int]).len() == 2);
                assert(enc_data_kind(ki[k as int])[1] == count_word);
                assert(ki[k as int].num_blocks_spec() == block_count);
            }
        }
        info.push(kind);
        running_total = running_total + block_count;
        pos = next2;
        k += 1;
    }
    if running_total != packed_list.count {
        proof {
            assert forall|hl: GlwePackedCompressedCiphertextList| container_encoded(
                w,
                hl,
            ) implies false by {
                assert(hl.info@.take(k as int) =~= hl.info@);
            }
        }
        return None;
    }
    proof {
        assert forall|hl: GlwePackedCompressedCiphertextList| container_encoded(w, hl) implies
            pos as int == enc_container(hl).len() by {
            lemma_container_implies_list(w, hl);
            assert(hl.info@.take(k as int) =~= hl.info@);
        }
    }
    Some((GlwePackedCompressedCiphertextList { packed_list, info }, pos))
}

/// Decodes a packed list from the start of `words`, validating every
/// structural invariant the library maintains for one.
pub fn deserialize_packed_list(words: &Vec<u64>) -> (r: Option<(
    GlwePackedCiphertextList,
    usize,
)>)
    ensures
        r is Some ==> {
            let (list, end) = r->Some_0;
            &&& list.wf()
            &&& end <= words@.len()
            &&& words@.take(end as int) =~= enc_packed_list(list)
        },
        forall|list: GlwePackedCiphertextList| #[trigger] packed_list_encoded(words@, list) ==> (
        r is Some && r->Some_0.1 == enc_packed_list(list).len()),
{
    let ghost w = words@;
    if words.len() < 8 {
        proof {
            assert forall|list: GlwePackedCiphertextList| packed_list_encoded(
                w,
                list,
            ) implies false by {
                lemma_list_header_words(w, list);
            }
        }
        return None;
    }
    let glwe_dimension_word = words[0];
    let polynomial_size_word = words[1];
    let message_modulus_word = words[2];
    let carry_modulus_word = words[3];
    let pbs_order_word = words[4];
    let lwe_per_glwe_word = words[5];
    let count_word = words[6];
    let chunk_count_word = words[7];
    if glwe_dimension_word >= 0x20 || polynomial_size_word < 1 || polynomial_size_word > 0x10_0000
        || message_modulus_word < 1 || message_modulus_word > 0x1000_0000 || carry_modulus_word < 1
        || carry_modulus_word > 0x1000_0000 || pbs_order_word > 1 {
        proof {
            assert forall|list: GlwePackedCiphertextList| packed_list_encoded(
                w,
                list,
            ) implies false by {
                lemma_list_header_words(w, list);
            }
        }
        return None;
    }
    let pbs_order = if pbs_order_word == 0 {
        PBSOrder::KeyswitchBootstrap
    } else {
        PBSOrder::BootstrapKeyswitch
    };
    let polynomial_size = polynomial_size_word as usize;
    if lwe_per_glwe_word < 1 || lwe_per_glwe_word > polynomial_size as u64 || count_word
        > 0x1000_0000 {
        proof {
            assert forall|list: GlwePackedCiphertextList| packed_list_encoded(
                w,
                list,
            ) implies false by {
                lemma_list_header_words(w, list);
            }
        }
        return None;
    }
    let lwe_per_glwe = lwe_per_glwe_word as usize;
    let count = count_word as usize;
    let expected_chunks = (count + lwe_per_glwe - 1) / lwe_per_glwe;
    if chunk_count_word != expected_chunks as u64 {
        proof {
            assert forall|list: GlwePackedCiphertextList| packed_list_encoded(
                w,
                list,
            ) implies false by {
                lemma_list_header_words(w, list);
            }
        }
        return None;
    }
    proof {
        vstd::arithmetic::div_mod::lemma_div_is_ordered(
            0,
            count as int + lwe_per_glwe - 1,
            lwe_per_glwe as int,
        );
    }
    let glwe_dimension = glwe_dimension_word as usize;
    let mut chunks: Vec<CompressedModulusSwitchedGlweCiphertext> = Vec::new();
    let mut pos: usize = 8;
    let mut c: usize = 0;
    let ghost header = seq![
        glwe_dimension_word,
        polynomial_size_word,
        message_modulus_word,
        carry_modulus_word,
        pbs_order_word,
        lwe_per_glwe_word,
        count_word,
        chunk_count_word,
    ];
    proof {
        assert(words@.take(8) =~= header);
        assert forall|list: GlwePackedCiphertextList| packed_list_encoded(w, list) implies (
        expected_chunks == list.compressed_modulus_switched_lwe_ciphertext@.len() && 8int == 8
            + enc_chunks(list.compressed_modulus_switched_lwe_ciphertext@.take(0)).len()) by {
            lemma_list_header_words(w, list);
            assert(list.compressed_modulus_switched_lwe_ciphertext@.take(0)
                =~= Seq::<CompressedModulusSwitchedGlweCiphertext>::empty());
        }
    }
    while c < expected_chunks
        invariant
            c <= expected_chunks,
            chunks@.len() == c,
            pos <= words@.len(),
            w == words@,
            glwe_dimension < 0x20,
            glwe_dimension == glwe_dimension_word as usize,
            glwe_dimension_word == words@[0],
            1 <= polynomial_size <= 0x10_0000,
            1 <= lwe_per_glwe <= polynomial_size,
            count <= 0x1000_0000,
            polynomial_size == polynomial_size_word as usize,
            polynomial_size_word == words@[1],
            lwe_per_glwe == lwe_per_glwe_word as usize,
            lwe_per_glwe_word == words@[5],
            count == count_word as usize,
            count_word == words@[6],
            count_word <= 0x1000_0000,
            glwe_dimension_word < 0x20,
            1 <= polynomial_size_word <= 0x10_0000,
            1 <= lwe_per_glwe_word,
            expected_chunks == chunk_count(count as int, lwe_per_glwe as int),
            words@.take(pos as int) =~= header + enc_chunks(chunks@),
            forall|j: int|
                0 <= j < c ==> {
                    let g = #[trigger] chunks@[j];
                    &&& g.wf()
                    &&& g.glwe_dimension.0 == glwe_dimension
                    &&& g.polynomial_size.0 == polynomial_size
                    &&& g.bodies_count == chunk_bodies(count as int, lwe_per_glwe as int, j)
                },
            forall|list: GlwePackedCiphertextList| #[trigger] packed_list_encoded(w, list) ==> (
            expected_chunks == list.compressed_modulus_switched_lwe_ciphertext@.len()
                && pos as int == 8 + enc_chunks(
                list.compressed_modulus_switched_lwe_ciphertext@.take(c as int),
            ).len()),
        decreases expected_chunks - c,
    {
        proof {
            lemma_chunk_bodies_in_range(count as int, lwe_per_glwe as int, c as int);
        }
        let expected_bodies = if count - c * lwe_per_glwe < lwe_per_glwe {
            count - c * lwe_per_glwe
        } else {
            lwe_per_glwe
        };
        proof {
            assert forall|list: GlwePackedCiphertextList| packed_list_encoded(
                w,
                list,
            ) implies glwe_encoded_at(
                w,
                pos as int,
                glwe_dimension as int,
                polynomial_size as int,
                expected_bodies as int,
                list.compressed_modulus_switched_lwe_ciphertext@[c as int],
            ) by {
                lemma_list_header_words(w, list);
                let lc = list.compressed_modulus_switched_lwe_ciphertext@;
                let g = lc[c as int];
                let ec_c = enc_chunks(lc.take(c as int));
                lemma_enc_chunks_step(lc, c as int);
                lemma_enc_chunks_prefix(lc, c as int + 1);
                let ll = enc_packed_list(list).len() as int;
                assert(g.wf() && g.glwe_dimension == list.glwe_dimension && g.polynomial_size
                    == list.polynomial_size && g.bodies_count == chunk_bodies(
                    list.count as int,
                    list.lwe_per_glwe as int,
                    c as int,
                ));
                assert(pos as int + enc_compressed_glwe(g).len() == 8 + enc_chunks(
                    lc.take(c as int + 1),
                ).len());
                assert(pos + enc_compressed_glwe(g).len() <= ll);
                assert forall|t: int|
                    0 <= t < enc_compressed_glwe(g).len() implies w[pos + t]
                    == enc_compressed_glwe(g)[t] by {
                    assert(w.take(ll)[pos + t] == w[pos + t]);
                    assert(enc_packed_list(list)[pos + t] == enc_chunks(lc)[pos - 8 + t]);
                    assert(enc_chunks(lc).take(enc_chunks(lc.take(c as int + 1)).len() as int)[pos
                        - 8 + t] == enc_chunks(lc)[pos - 8 + t]);
                    assert(enc_chunks(lc.take(c as int + 1))[pos - 8 + t]
                        == (ec_c + enc_compressed_glwe(g))[ec_c.len() + t]);
                }
                assert(w.subrange(pos as int, pos as int + enc_compressed_glwe(g).len() as int)
                    =~= enc_compressed_glwe(g));
            }
        }
        let (chunk, next) = match deserialize_compressed_glwe(
            words,
            pos,
            glwe_dimension,
            polynomial_size,
            expected_bodies,
        ) {
            Some(v) => v,
            None => {
                proof {
                    assert forall|list: GlwePackedCiphertextList| packed_list_encoded(
                        w,
                        list,
                    ) implies false by {
                        assert(glwe_encoded_at(
                            w,
                            pos as int,
                            glwe_dimension as int,
                            polynomial_size as int,
                            expected_bodies as int,
                            list.compressed_modulus_switched_lwe_ciphertext@[c as int],
                        ));
                    }
                }
                return None;
            },
        };
        proof {
            assert(chunks@.push(chunk).drop_last() =~= chunks@);
            assert(words@.take(next as int) =~= words@.take(pos as int) + words@.subrange(
                pos as int,
                next as int,
            ));
            assert forall|list: GlwePackedCiphertextList| packed_list_encoded(w, list) implies (
            expected_chunks == list.compressed_modulus_switched_lwe_ciphertext@.len()
                && next as int == 8 + enc_chunks(
                list.compressed_modulus_switched_lwe_ciphertext@.take(c as int + 1),
            ).len()) by {
                let lc = list.compressed_modulus_switched_lwe_ciphertext@;
                assert(glwe_encoded_at(
                    w,
                    pos as int,
                    glwe_dimension as int,
                    polynomial_size as int,
                    expected_bodies as int,
                    lc[c as int],
                ));
                lemma_enc_chunks_step(lc, c as int);
            }
        }
        chunks.push(chunk);
        pos = next;
        c += 1;
    }
    let list = GlwePackedCiphertextList {
        compressed_modulus_switched_lwe_ciphertext: chunks,
        glwe_dimension: GlweDimension(glwe_dimension),
        polynomial_size: PolynomialSize(polynomial_size),
        ciphertext_modulus: CiphertextModulus,
        message_modulus: MessageModulus(message_modulus_word as usize),
        carry_modulus: CarryModulus(carry_modulus_word as usize),
        pbs_order,
        lwe_per_glwe,
        count,
    };
    proof {
        assert forall|hl: GlwePackedCiphertextList| packed_list_encoded(w, hl) implies pos as int
            == enc_packed_list(hl).len() by {
            lemma_list_header_words(w, hl);
            assert(hl.compressed_modulus_switched_lwe_ciphertext@.take(c as int)
                =~= hl.compressed_modulus_switched_lwe_ciphertext@);
        }
    }
    Some((list, pos))
}

/// For a chunk index inside the chunk count, the bodies formula stays in
/// `[0, lwe_per_glwe]` and the chunk base stays at or below the count.
proof fn lemma_chunk_bodies_in_range(count: int, lwe_per_glwe: int, c: int)
    requires
        1 <= lwe_per_glwe,
        0 <= count,
        0 <= c < chunk_count(count, lwe_per_glwe),
    ensures
        0 <= c * lwe_per_glwe <= count,
        chunk_bodies(count, lwe_per_glwe, c) == if count - c * lwe_per_glwe < lwe_per_glwe {
            count - c * lwe_per_glwe
        } else {
            lwe_per_glwe
        },
{
    vstd::arithmetic::div_mod::lemma_fundamental_div_mod(count + lwe_per_glwe - 1, lwe_per_glwe);
    let q = (count + lwe_per_glwe - 1) / lwe_per_glwe;
    assert((c + 1) * lwe_per_glwe <= q * lwe_per_glwe && 0 <= c * lwe_per_glwe && (c + 1)
        * lwe_per_glwe == c * lwe_per_glwe + lwe_per_glwe) by (nonlinear_arith)
        requires
            0 <= c < q,
            1 <= lwe_per_glwe,
    ;
    vstd::arithmetic::mul::lemma_mul_is_commutative(lwe_per_glwe, q);
    vstd::arithmetic::div_mod::lemma_mod_bound(count + lwe_per_glwe - 1, lwe_per_glwe);
}

/// The hypothesis under which decoding a compressed GLWE group is owed:
/// a well-formed group of the expected shape is encoded at `pos`.
pub open spec fn glwe_encoded_at(
    words: Seq<u64>,
    pos: int,
    glwe_dimension: int,
    polynomial_size: int,
    expected_bodies: int,
    g: CompressedModulusSwitchedGlweCiphertext,
) -> bool {
    &&& g.wf()
    &&& g.glwe_dimension.0 == glwe_dimension
    &&& g.polynomial_size.0 == polynomial_size
    &&& g.bodies_count == expected_bodies
    &&& pos + enc_compressed_glwe(g).len() <= words.len()
    &&& words.subrange(pos, pos + enc_compressed_glwe(g).len() as int) == enc_compressed_glwe(g)
}

/// The words an encoded group occupies, read off its layout.
proof fn lemma_glwe_encoding_words(
    words: Seq<u64>,
    pos: int,
    g: CompressedModulusSwitchedGlweCiphertext,
)
    requires
        pos >= 0,
        pos + enc_compressed_glwe(g).len() <= words.len(),
        words.subrange(pos, pos + enc_compressed_glwe(g).len() as int) == enc_compressed_glwe(g),
    ensures
        enc_compressed_glwe(g).len() == 6 + g.packed_integers.packed_coeffs@.len(),
        words[pos] == g.glwe_dimension.0 as u64,
        words[pos + 1] == g.polynomial_size.0 as u64,
        words[pos + 2] == g.bodies_count as u64,
        words[pos + 3] == g.packed_integers.log_modulus.0 as u64,
        words[pos + 4] == g.packed_integers.initial_len as u64,
        words[pos + 5] == g.packed_integers.packed_coeffs@.len() as u64,
{
    let l = enc_compressed_glwe(g).len() as int;
    assert forall|i: int| 0 <= i < 6 implies words[pos + i] == enc_compressed_glwe(g)[i] by {
        assert(words.subrange(pos, pos + l)[i] == words[pos + i]);
    }
    assert(words[pos + 0] == enc_compressed_glwe(g)[0]);
    assert(words[pos + 1] == enc_compressed_glwe(g)[1]);
    assert(words[pos + 2] == enc_compressed_glwe(g)[2]);
    assert(words[pos + 3] == enc_compressed_glwe(g)[3]);
    assert(words[pos + 4] == enc_compressed_glwe(g)[4]);
    assert(words[pos + 5] == enc_compressed_glwe(g)[5]);
    assert(enc_compressed_glwe(g)[3] == enc_packed_integers(g.packed_integers)[0]);
    assert(enc_compressed_glwe(g)[4] == enc_packed_integers(g.packed_integers)[1]);
    assert(enc_compressed_glwe(g)[5] == enc_packed_integers(g.packed_integers)[2]);
}

/// Decodes one compressed GLWE group at `pos`, holding it to the
/// expected shape of its list.  Succeeds on every input at which a
/// well-formed group of that shape is encoded.
fn deserialize_compressed_glwe(
    words: &Vec<u64>,
    pos: usize,
    glwe_dimension: usize,
    polynomial_size: usize,
    expected_bodies: usize,
) -> (r: Option<(CompressedModulusSwitchedGlweCiphertext, usize)>)
    requires
        glwe_dimension < 0x20,
        1 <= polynomial_size <= 0x10_0000,
        expected_bodies <= polynomial_size,
    ensures
        r is Some ==> {
            let (glwe, end) = r->Some_0;
            &&& glwe.wf()
            &&& glwe.glwe_dimension.0 == glwe_dimension
            &&& glwe.polynomial_size.0 == polynomial_size
            &&& glwe.bodies_count == expected_bodies
            &&& pos <= end <= words@.len()
            &&& words@.subrange(pos as int, end as int) =~= enc_compressed_glwe(glwe)
        },
        forall|g: CompressedModulusSwitchedGlweCiphertext| #[trigger] glwe_encoded_at(
            words@,
            pos as int,
            glwe_dimension as int,
            polynomial_size as int,
            expected_bodies as int,
            g,
        ) ==> (r is Some && r->Some_0.1 == pos + enc_compressed_glwe(g).len()),
{
    let ghost w = words@;
    let (glwe_dimension_word, p1) = match read_word(words, pos) {
        Some(v) => v,
        None => {
            proof {
                assert forall|g: CompressedModulusSwitchedGlweCiphertext| glwe_encoded_at(
                    w,
                    pos as int,
                    glwe_dimension as int,
                    polynomial_size as int,
                    expected_bodies as int,
                    g,
                ) implies false by {
                    lemma_glwe_encoding_words(w, pos as int, g);
                }
            }
            return None;
        },
    };
    let (polynomial_size_word, p2) = match read_word(words, p1) {
        Some(v) => v,
        None => {
            proof {
                assert forall|g: CompressedModulusSwitchedGlweCiphertext| glwe_encoded_at(
                    w,
                    pos as int,
                    glwe_dimension as int,
                    polynomial_size as int,
                    expected_bodies as int,
                    g,
                ) implies false by {
                    lemma_glwe_encoding_words(w, pos as int, g);
                }
            }
            return None;
        },
    };
    let (bodies_word, p3) = match read_word(words, p2) {
        Some(v) => v,
        None => {
            proof {
                assert forall|g: CompressedModulusSwitchedGlweCiphertext| glwe_encoded_at(
                    w,
                    pos as int,
                    glwe_dimension as int,
                    polynomial_size as int,
                    expected_bodies as int,
                    g,
                ) implies false by {
                    lemma_glwe_encoding_words(w, pos as int, g);
                }
            }
            return None;
        },
    };
    let (log_modulus_word, p4) = match read_word(words, p3) {
        Some(v) => v,
        None => {
            proof {
                assert forall|g: CompressedModulusSwitchedGlweCiphertext| glwe_encoded_at(
                    w,
                    pos as int,
                    glwe_dimension as int,
                    polynomial_size as int,
                    expected_bodies as int,
                    g,
                ) implies false by {
                    lemma_glwe_encoding_words(w, pos as int, g);
                }
            }
            return None;
        },
    };
    let (initial_len_word, p5) = match read_word(words, p4) {
        Some(v) => v,
        None => {
            proof {
                assert forall|g: CompressedModulusSwitchedGlweCiphertext| glwe_encoded_at(
                    w,
                    pos as int,
                    glwe_dimension as int,
                    polynomial_size as int,
                    expected_bodies as int,
                    g,
                ) implies false by {
                    lemma_glwe_encoding_words(w, pos as int, g);
                }
            }
            return None;
        },
    };
    let (stored_len_word, p6) = match read_word(words, p5) {
        Some(v) => v,
        None => {
            proof {
                assert forall|g: CompressedModulusSwitchedGlweCiphertext| glwe_encoded_at(
                    w,
                    pos as int,
                    glwe_dimension as int,
                    polynomial_size as int,
                    expected_bodies as int,
                    g,
                ) implies false by {
                    lemma_glwe_encoding_words(w, pos as int, g);
                }
            }
            return None;
        },
    };
    if glwe_dimension_word != glwe_dimension as u64 || polynomial_size_word
        != polynomial_size as u64 || bodies_word != expected_bodies as u64 || log_modulus_word < 1
        || log_modulus_word > 63 {
        proof {
            assert forall|g: CompressedModulusSwitchedGlweCiphertext| glwe_encoded_at(
                w,
                pos as int,
                glwe_dimension as int,
                polynomial_size as int,
                expected_bodies as int,
                g,
            ) implies false by {
                lemma_glwe_encoding_words(w, pos as int, g);
            }
        }
        return None;
    }
    let log_modulus = log_modulus_word as usize;
    proof {
        assert((glwe_dimension as int + 1) * (polynomial_size as int) <= 0x200_0000)
            by (nonlinear_arith)
            requires
                glwe_dimension < 0x20,
                1 <= polynomial_size <= 0x10_0000,
        ;
    }
    let expected_len = (glwe_dimension + 1) * polynomial_size;
    proof {
        assert((expected_len as int) * (log_modulus as int) <= 0x200_0000 * 63)
            by (nonlinear_arith)
            requires
                0 <= expected_len <= 0x200_0000,
                1 <= log_modulus <= 63,
        ;
        crate::packed_integers::lemma_ceil_div64(expected_len as int, log_modulus as int);
    }
    let number_bits = expected_len * log_modulus;
    let expected_words = if number_bits % 64 == 0 {
        number_bits / 64
    } else {
        number_bits / 64 + 1
    };
    if initial_len_word != expected_len as u64 || stored_len_word != expected_words as u64 {
        proof {
            assert forall|g: CompressedModulusSwitchedGlweCiphertext| glwe_encoded_at(
                w,
                pos as int,
                glwe_dimension as int,
                polynomial_size as int,
                expected_bodies as int,
                g,
            ) implies false by {
                lemma_glwe_encoding_words(w, pos as int, g);
            }
        }
        return None;
    }
    if expected_words > words.len() || p6 > words.len() - expected_words {
        proof {
            assert forall|g: CompressedModulusSwitchedGlweCiphertext| glwe_encoded_at(
                w,
                pos as int,
                glwe_dimension as int,
                polynomial_size as int,
                expected_bodies as int,
                g,
            ) implies false by {
                lemma_glwe_encoding_words(w, pos as int, g);
            }
        }
        return None;
    }
    let mut packed_coeffs: Vec<u64> = Vec::new();
    let mut k: usize = 0;
    while k < expected_words
        invariant
            k <= expected_words,
            packed_coeffs@.len() == k,
            p6 + expected_words <= words.len(),
            forall|j: int| 0 <= j < k ==> packed_coeffs@[j] == words@[p6 + j],
        decreases expected_words - k,
    {
        packed_coeffs.push(words[p6 + k]);
        k += 1;
    }
    let end = p6 + expected_words;
    let glwe = CompressedModulusSwitchedGlweCiphertext {
        packed_integers: PackedIntegers {
            packed_coeffs,
            log_modulus: CiphertextModulusLog(log_modulus),
            initial_len: expected_len,
        },
        glwe_dimension: GlweDimension(glwe_dimension),
        polynomial_size: PolynomialSize(polynomial_size),
        bodies_count: expected_bodies,
        uncompressed_ciphertext_modulus: CiphertextModulus,
    };
    proof {
        assert(words@.subrange(pos as int, end as int) =~= seq![
            words@[pos as int],
            words@[p1 as int],
            words@[p2 as int],
            words@[p3 as int],
            words@[p4 as int],
            words@[p5 as int],
        ] + words@.subrange(p6 as int, end as int));
        assert(glwe.packed_integers.packed_coeffs@ =~= words@.subrange(p6 as int, end as int));
        assert forall|g: CompressedModulusSwitchedGlweCiphertext| glwe_encoded_at(
            w,
            pos as int,
            glwe_dimension as int,
            polynomial_size as int,
            expected_bodies as int,
            g,
        ) implies end == pos + enc_compressed_glwe(g).len() by {
            lemma_glwe_encoding_words(w, pos as int, g);
        }
    }
    Some((glwe, end))
}

} // verus!
