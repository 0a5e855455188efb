//! The typed container: a builder that flattens heterogeneous values
//! (booleans, unsigned and signed radix integers) into a run of scalar
//! ciphertext blocks with a parallel list of kind descriptors, and a
//! sealed list that locates an entry's blocks by prefix-summing the
//! kinds, unpacks them, and reassembles a value of the requested type.

use vstd::prelude::*;

use crate::client_key::{Ciphertext, ClientKey, ServerKey, ShortintEngine};
use crate::compression::packable;
use crate::glwe_packed_list::GlwePackedCiphertextList;
use crate::parameters::{ClassicPBSParameters, MessageModulus, PBSParameters};
use crate::server_keys::{GlweCompressionKey, GlweDecompressionKey};

verus! {

/// The kind of one stored entry: a boolean block, or an unsigned or
/// signed radix integer of the given block count.
#[derive(Clone, Copy, Debug, PartialEq, Eq, Structural)]
pub enum DataKind {
    Boolean,
    Unsigned(usize),
    Signed(usize),
}

impl DataKind {
    pub open spec fn num_blocks_spec(self) -> int {
        match self {
            DataKind::Boolean => 1,
            DataKind::Unsigned(n) => n as int,
            DataKind::Signed(n) => n as int,
        }
    }

    pub fn num_blocks(self) -> (r: usize)
        ensures
            r == self.num_blocks_spec(),
    {
        match self {
            DataKind::Boolean => 1,
            DataKind::Unsigned(n) => n,
            DataKind::Signed(n) => n,
        }
    }
}

/// An encrypted boolean: one scalar ciphertext holding zero or one.
pub struct BooleanBlock(pub Ciphertext);

/// An unsigned radix integer: little-endian blocks in the message base.
pub struct RadixCiphertext {
    pub blocks: Vec<Ciphertext>,
}

/// A signed radix integer: the two's complement of the value, stored in
/// little-endian blocks in the message base.
pub struct SignedRadixCiphertext {
    pub blocks: Vec<Ciphertext>,
}

/// A value that can be flattened into scalar ciphertext blocks for
/// packing.  Its kind records how many blocks it occupies.
pub trait GlwePackable: Sized {
    /// The blocks the value flattens to.
    spec fn blocks_spec(&self) -> Seq<Ciphertext>;

    /// The kind descriptor recorded for the value.
    spec fn kind_spec(&self) -> DataKind;

    /// Appends the value's blocks to `messages` and returns its kind.
    fn compact_into(
        self,
        messages: &mut Vec<Ciphertext>,
        message_modulus: MessageModulus,
        num_blocks: Option<usize>,
    ) -> (r: DataKind)
        ensures
            r == self.kind_spec(),
            r.num_blocks_spec() == self.blocks_spec().len(),
            final(messages)@ =~= old(messages)@ + self.blocks_spec(),
    ;
}

impl GlwePackable for BooleanBlock {
    open spec fn blocks_spec(&self) -> Seq<Ciphertext> {
        seq![self.0]
    }

    open spec fn kind_spec(&self) -> DataKind {
        DataKind::Boolean
    }

    fn compact_into(
        self,
        messages: &mut Vec<Ciphertext>,
        _message_modulus: MessageModulus,
        _num_blocks: Option<usize>,
    ) -> (r: DataKind) {
        messages.push(self.0);
        DataKind::Boolean
    }
}

impl GlwePackable for RadixCiphertext {
    open spec fn blocks_spec(&self) -> Seq<Ciphertext> {
        self.blocks@
    }

    open spec fn kind_spec(&self) -> DataKind {
        DataKind::Unsigned(self.blocks@.len() as usize)
    }

    fn compact_into(
        self,
        messages: &mut Vec<Ciphertext>,
        _message_modulus: MessageModulus,
        _num_blocks: Option<usize>,
    ) -> (r: DataKind) {
        let num_blocks = self.blocks.len();
        let mut value = self;
        messages.append(&mut value.blocks);
        DataKind::Unsigned(num_blocks)
    }
}

impl GlwePackable for SignedRadixCiphertext {
    open spec fn blocks_spec(&self) -> Seq<Ciphertext> {
        self.blocks@
    }

    open spec fn kind_spec(&self) -> DataKind {
        DataKind::Signed(self.blocks@.len() as usize)
    }

    fn compact_into(
        self,
        messages: &mut Vec<Ciphertext>,
        _message_modulus: MessageModulus,
        _num_blocks: Option<usize>,
    ) -> (r: DataKind) {
        let num_blocks = self.blocks.len();
        let mut value = self;
        messages.append(&mut value.blocks);
        DataKind::Signed(num_blocks)
    }
}

/// The blocks of a run of values, in order.
pub open spec fn values_blocks<T: GlwePackable>(values: Seq<T>) -> Seq<Ciphertext>
    decreases values.len(),
{
    if values.len() == 0 {
        Seq::empty()
    } else {
        values[0].blocks_spec() + values_blocks(values.drop_first())
    }
}

/// The kinds recorded for a run of values, in order: one per value that
/// flattens to at least one block.
pub open spec fn values_kinds<T: GlwePackable>(values: Seq<T>) -> Seq<DataKind>
    decreases values.len(),
{
    if values.len() == 0 {
        Seq::empty()
    } else {
        let rest = values_kinds(values.drop_first());
        if values[0].blocks_spec().len() > 0 {
            seq![values[0].kind_spec()] + rest
        } else {
            rest
        }
    }
}

/// Total number of blocks described by a kind list.
pub open spec fn total_blocks(info: Seq<DataKind>) -> int
    decreases info.len(),
{
    if info.len() == 0 {
        0
    } else {
        total_blocks(info.drop_last()) + info.last().num_blocks_spec()
    }
}

/// Number of blocks before entry `index`.
pub open spec fn prefix_blocks(info: Seq<DataKind>, index: int) -> int {
    total_blocks(info.take(index))
}

/// The prefix sums never exceed the total when every kind is nonempty.
pub(crate) proof fn lemma_prefix_blocks_bounds(info: Seq<DataKind>, index: int)
    requires
        0 <= index < info.len(),
        forall|k: int| 0 <= k < info.len() ==> #[trigger] info[k].num_blocks_spec() >= 1,
    ensures
        prefix_blocks(info, index) >= 0,
        prefix_blocks(info, index) + info[index].num_blocks_spec() <= total_blocks(info),
        prefix_blocks(info, index + 1) == prefix_blocks(info, index)
            + info[index].num_blocks_spec(),
    decreases info.len(),
{
    lemma_total_blocks_nonneg(info.take(index));
    assert(info.take(index + 1).drop_last() =~= info.take(index));
    assert(info.take(index + 1).last() == info[index]);
    if index + 1 == info.len() {
        assert(info.take(index + 1) =~= info);
    } else {
        lemma_prefix_blocks_bounds(info.drop_last(), index);
        assert(info.drop_last().take(index) =~= info.take(index));
        assert(info.drop_last().take(index + 1) =~= info.take(index + 1));
        assert(info.last().num_blocks_spec() >= 1);
    }
}

/// The described block count is never negative.
proof fn lemma_total_blocks_nonneg(info: Seq<DataKind>)
    requires
        forall|k: int| 0 <= k < info.len() ==> #[trigger] info[k].num_blocks_spec() >= 0,
    ensures
        total_blocks(info) >= 0,
    decreases info.len(),
{
    if info.len() > 0 {
        lemma_total_blocks_nonneg(info.drop_last());
    }
}

/// With every entry holding at least one block, the block total is at
/// least the entry count.
pub(crate) proof fn lemma_total_blocks_at_least_len(info: Seq<DataKind>)
    requires
        forall|k: int| 0 <= k < info.len() ==> #[trigger] info[k].num_blocks_spec() >= 1,
    ensures
        total_blocks(info) >= info.len(),
    decreases info.len(),
{
    if info.len() > 0 {
        lemma_total_blocks_at_least_len(info.drop_last());
    }
}

/// Why reassembling a value of the requested type failed: the stored
/// kind is incompatible with it.
#[derive(Clone, Copy, Debug, PartialEq, Eq, Structural)]
pub enum ExpandError {
    WrongKind,
}

/// A value that can be reassembled from unpacked blocks and the recorded
/// kind of its entry.  A rebuilt value holds exactly the blocks it was
/// given, which `blocks_spec` of the flattening side exposes.
pub trait Expandable: GlwePackable + Sized {
    /// Which kinds this type accepts.
    spec fn kind_matches(kind: DataKind) -> bool;

    /// Rebuilds the value, or reports a kind mismatch.
    fn from_expanded_blocks(blocks: Vec<Ciphertext>, kind: DataKind) -> (r: Result<
        Self,
        ExpandError,
    >)
        requires
            blocks@.len() == kind.num_blocks_spec(),
        ensures
            r is Ok <==> Self::kind_matches(kind),
            r is Err ==> r == Result::<Self, ExpandError>::Err(ExpandError::WrongKind),
            r is Ok ==> (r->Ok_0).blocks_spec() =~= blocks@,
    ;
}

impl Expandable for BooleanBlock {
    open spec fn kind_matches(kind: DataKind) -> bool {
        kind is Boolean
    }

    fn from_expanded_blocks(blocks: Vec<Ciphertext>, kind: DataKind) -> (r: Result<
        Self,
        ExpandError,
    >) {
        match kind {
            DataKind::Boolean => {
                let ghost given = blocks@;
                let mut blocks = blocks;
                if blocks.len() >= 1 {
                    match blocks.pop() {
                        Some(ct) => {
                            proof {
                                assert(seq![ct] =~= given);
                            }
                            Ok(BooleanBlock(ct))
                        },
                        None => Err(ExpandError::WrongKind),
                    }
                } else {
                    Err(ExpandError::WrongKind)
                }
            },
            _ => Err(ExpandError::WrongKind),
        }
    }
}

impl Expandable for RadixCiphertext {
    open spec fn kind_matches(kind: DataKind) -> bool {
        kind is Unsigned
    }

    fn from_expanded_blocks(blocks: Vec<Ciphertext>, kind: DataKind) -> (r: Result<
        Self,
        ExpandError,
    >) {
        match kind {
            DataKind::Unsigned(_) => Ok(RadixCiphertext { blocks }),
            _ => Err(ExpandError::WrongKind),
        }
    }
}

impl Expandable for SignedRadixCiphertext {
    open spec fn kind_matches(kind: DataKind) -> bool {
        kind is Signed
    }

    fn from_expanded_blocks(blocks: Vec<Ciphertext>, kind: DataKind) -> (r: Result<
        Self,
        ExpandError,
    >) {
        match kind {
            DataKind::Signed(_) => Ok(SignedRadixCiphertext { blocks }),
            _ => Err(ExpandError::WrongKind),
        }
    }
}

/// The builder: accumulates flattened blocks and their kinds in push
/// order.  Discarded after `build`; entries cannot be appended to a
/// sealed list.
pub struct GlwePackedCompressedCiphertextListBuilder {
    pub ciphertexts: Vec<Ciphertext>,
    pub info: Vec<DataKind>,
    pub message_modulus: MessageModulus,
}

impl GlwePackedCompressedCiphertextListBuilder {
    pub open spec fn wf(&self) -> bool {
        &&& total_blocks(self.info@) == self.ciphertexts@.len()
        &&& forall|k: int|
            0 <= k < self.info@.len() ==> #[trigger] self.info@[k].num_blocks_spec() >= 1
    }

    pub fn new(message_modulus: MessageModulus) -> (r: Self)
        ensures
            r.wf(),
            r.ciphertexts@.len() == 0,
            r.info@.len() == 0,
            r.message_modulus == message_modulus,
    {
        GlwePackedCompressedCiphertextListBuilder {
            ciphertexts: Vec::new(),
            info: Vec::new(),
            message_modulus,
        }
    }

    /// Flattens `data` into the pending block run and records its kind;
    /// a zero-block value is dropped without recording anything.
    pub fn push<T: GlwePackable>(&mut self, data: T)
        requires
            old(self).wf(),
        ensures
            final(self).wf(),
            final(self).message_modulus == old(self).message_modulus,
            final(self).ciphertexts@ =~= old(self).ciphertexts@ + data.blocks_spec(),
            data.blocks_spec().len() > 0 ==> final(self).info@ =~= old(self).info@.push(
                data.kind_spec(),
            ),
            data.blocks_spec().len() == 0 ==> final(self).info@ =~= old(self).info@,
    {
        let ghost old_info = self.info@;
        let ghost blocks = data.blocks_spec();
        let kind = data.compact_into(&mut self.ciphertexts, self.message_modulus, None);
        if kind.num_blocks() != 0 {
            self.info.push(kind);
            proof {
                assert(self.info@.drop_last() =~= old_info);
            }
        }
    }

    /// Flattens every value of `values`, in order: observably one push
    /// per value, recording exactly the kinds of the non-empty values.
    pub fn extend<T: GlwePackable>(&mut self, values: Vec<T>)
        requires
            old(self).wf(),
        ensures
            final(self).wf(),
            final(self).message_modulus == old(self).message_modulus,
            final(self).ciphertexts@ =~= old(self).ciphertexts@ + values_blocks(values@),
            final(self).info@ =~= old(self).info@ + values_kinds(values@),
    {
        let mut values = values;
        let ghost target = old(self).ciphertexts@ + values_blocks(values@);
        let ghost target_info = old(self).info@ + values_kinds(values@);
        while values.len() > 0
            invariant
                self.wf(),
                self.message_modulus == old(self).message_modulus,
                target =~= self.ciphertexts@ + values_blocks(values@),
                target_info =~= self.info@ + values_kinds(values@),
            decreases values@.len(),
        {
            let ghost before = values@;
            let value = values.remove(0);
            proof {
                assert(values@ =~= before.drop_first());
                assert(values_blocks(before) =~= value.blocks_spec() + values_blocks(
                    before.drop_first(),
                ));
                if value.blocks_spec().len() > 0 {
                    assert(values_kinds(before) =~= seq![value.kind_spec()] + values_kinds(
                        before.drop_first(),
                    ));
                } else {
                    assert(values_kinds(before) =~= values_kinds(before.drop_first()));
                }
            }
            let ghost info_before = self.info@;
            self.push(value);
            proof {
                if value.blocks_spec().len() > 0 {
                    assert(self.info@ =~= info_before.push(value.kind_spec()));
                    assert(target_info =~= self.info@ + values_kinds(values@));
                }
            }
        }
        proof {
            assert(values_blocks(values@) =~= Seq::<Ciphertext>::empty());
            assert(values_kinds(values@) =~= Seq::<DataKind>::empty());
        }
    }

    /// Seals the accumulated run: packs every block with the compression
    /// key and pairs the result with the recorded kinds.
    pub fn build(&self, comp_key: &GlweCompressionKey) -> (r: GlwePackedCompressedCiphertextList)
        requires
            self.wf(),
            comp_key.wf(),
            packable(comp_key, self.ciphertexts@),
        ensures
            r.wf(),
            r.info@ =~= self.info@,
            r.packed_list.count == self.ciphertexts@.len(),
            r.packed_list.message_modulus == self.ciphertexts@[0].message_modulus,
            r.packed_list.carry_modulus == self.ciphertexts@[0].carry_modulus,
            r.packed_list.pbs_order == self.ciphertexts@[0].pbs_order,
            r.packed_list.lwe_per_glwe == comp_key.lwe_per_glwe,
            r.packed_list.polynomial_size == comp_key.packing_key_switching_key.output_polynomial_size,
            r.packed_list.glwe_dimension.0 == comp_key.packing_key_switching_key.output_glwe_size.0
                - 1,
            // the packed list holds exactly the pack of the accumulated
            // blocks: every chunk stores the modulus-switched keyswitch
            // fold of its scaled run
            forall|c: int|
                0 <= c < r.packed_list.compressed_modulus_switched_lwe_ciphertext@.len() ==> {
                    let g = #[trigger] r.packed_list.compressed_modulus_switched_lwe_ciphertext@[c];
                    g.packed_integers.contents() =~= crate::compressed_glwe::switched_seq(
                        crate::keyswitch::ks_packed(
                            crate::compression::zero_seq(
                                (comp_key.packing_key_switching_key.output_glwe_size.0 as int) * (
                                comp_key.packing_key_switching_key.output_polynomial_size.0 as int),
                            ),
                            comp_key.packing_key_switching_key,
                            crate::compression::scaled_chunk(
                                self.ciphertexts@,
                                c * (comp_key.lwe_per_glwe as int),
                                crate::glwe_packed_list::chunk_bodies(
                                    self.ciphertexts@.len() as int,
                                    comp_key.lwe_per_glwe as int,
                                    c,
                                ),
                                comp_key.packing_key_switching_key.input_lwe_dimension_spec() + 1,
                                self.ciphertexts@[0].message_modulus.0 as u64,
                            ),
                            crate::glwe_packed_list::chunk_bodies(
                                self.ciphertexts@.len() as int,
                                comp_key.lwe_per_glwe as int,
                                c,
                            ),
                            comp_key.packing_key_switching_key.output_polynomial_size.0 as int,
                        ),
                        g.packed_integers.log_modulus.0 as int,
                    )
                },
    {
        let packed_list = comp_key.pack_lwe_ciphertexts_into_glwes(self.ciphertexts.as_slice());
        let mut info: Vec<DataKind> = Vec::new();
        let total = self.info.len();
        let mut k: usize = 0;
        while k < total
            invariant
                k <= total,
                total == self.info.len(),
                info@.len() == k,
                forall|k2: int| 0 <= k2 < k ==> info@[k2] == self.info@[k2],
            decreases total - k,
        {
            info.push(self.info[k]);
            k += 1;
        }
        proof {
            assert(info@ =~= self.info@);
        }
        GlwePackedCompressedCiphertextList { packed_list, info }
    }
}

/// The sealed container: the packed list plus the kind of every entry in
/// push order.  Block offsets are derived by prefix-summing the kinds.
pub struct GlwePackedCompressedCiphertextList {
    pub packed_list: GlwePackedCiphertextList,
    pub info: Vec<DataKind>,
}

impl GlwePackedCompressedCiphertextList {
    pub open spec fn wf(&self) -> bool {
        &&& self.packed_list.wf()
        &&& total_blocks(self.info@) == self.packed_list.count
        &&& forall|k: int|
            0 <= k < self.info@.len() ==> #[trigger] self.info@[k].num_blocks_spec() >= 1
    }

    /// Number of stored entries (not blocks).
    pub fn len(&self) -> (r: usize)
        ensures
            r == self.info@.len(),
    {
        self.info.len()
    }

    pub fn is_empty(&self) -> (r: bool)
        ensures
            r == (self.info@.len() == 0),
    {
        self.info.len() == 0
    }

    /// The kind of entry `index`, or nothing past the end.
    pub fn get_kind_of(&self, index: usize) -> (r: Option<DataKind>)
        ensures
            r is Some <==> index < self.info@.len(),
            index < self.info@.len() ==> r == Some(self.info@[index as int]),
    {
        if index < self.info.len() {
            Some(self.info[index])
        } else {
            None
        }
    }

    /// Unpacks the blocks of entry `index`, in block order, together with
    /// the entry's kind; nothing past the end.
    pub fn blocks_of(&self, index: usize, decomp_key: &GlweDecompressionKey) -> (r: Option<(
        Vec<Ciphertext>,
        DataKind,
    )>)
        requires
            self.wf(),
            decomp_key.wf(),
            decomp_key.compatible_with(&self.packed_list),
        ensures
            r is Some <==> index < self.info@.len(),
            index < self.info@.len() ==> r->Some_0.1 == self.info@[index as int],
            index < self.info@.len() ==> r->Some_0.0@.len()
                == self.info@[index as int].num_blocks_spec(),
            // block `b` of the entry is the unpacking of the slot at the
            // entry's prefix-sum offset plus `b`: the same data and
            // plaintext-space metadata the unpacker returns
            index < self.info@.len() ==> (forall|b: int|
                0 <= b < r->Some_0.0@.len() ==> {
                    let ct = #[trigger] r->Some_0.0@[b];
                    &&& ct.wf()
                    &&& ct.ct.data@ =~= crate::compression::unpacked_ciphertext_data(
                        *decomp_key,
                        self.packed_list,
                        prefix_blocks(self.info@, index as int) + b,
                    )
                    &&& ct.message_modulus == self.packed_list.message_modulus
                    &&& ct.carry_modulus == self.packed_list.carry_modulus
                    &&& ct.pbs_order == self.packed_list.pbs_order
                    &&& ct.noise_level.0 == 1
                    &&& ct.degree.0 == ((self.packed_list.message_modulus.0 as int) * (
                    self.packed_list.carry_modulus.0 as int) - 1) / (
                    self.packed_list.message_modulus.0 as int)
                }),
    {
        if index >= self.info.len() {
            return None;
        }
        let current_info = self.info[index];
        let mut start_block_index: usize = 0;
        let mut k: usize = 0;
        proof {
            lemma_prefix_blocks_bounds(self.info@, index as int);
            assert(self.info@.take(0) =~= Seq::<DataKind>::empty());
        }
        while k < index
            invariant
                self.wf(),
                k <= index,
                index < self.info@.len(),
                start_block_index == prefix_blocks(self.info@, k as int),
                start_block_index <= self.packed_list.count,
            decreases index - k,
        {
            proof {
                lemma_prefix_blocks_bounds(self.info@, k as int);
                lemma_prefix_blocks_bounds(self.info@, index as int);
                lemma_prefix_monotonic(self.info@, k as int + 1, index as int);
            }
            start_block_index = start_block_index + self.info[k].num_blocks();
            k += 1;
        }
        let block_count = current_info.num_blocks();
        proof {
            lemma_prefix_blocks_bounds(self.info@, index as int);
        }
        let mut blocks: Vec<Ciphertext> = Vec::new();
        let mut b: usize = 0;
        while b < block_count
            invariant
                self.wf(),
                decomp_key.wf(),
                decomp_key.compatible_with(&self.packed_list),
                b <= block_count,
                blocks@.len() == b,
                start_block_index + block_count <= self.packed_list.count,
                start_block_index == prefix_blocks(self.info@, index as int),
                forall|b2: int|
                    0 <= b2 < b ==> {
                        let ct = #[trigger] blocks@[b2];
                        &&& ct.wf()
                        &&& ct.ct.data@ =~= crate::compression::unpacked_ciphertext_data(
                            *decomp_key,
                            self.packed_list,
                            prefix_blocks(self.info@, index as int) + b2,
                        )
                        &&& ct.message_modulus == self.packed_list.message_modulus
                        &&& ct.carry_modulus == self.packed_list.carry_modulus
                        &&& ct.pbs_order == self.packed_list.pbs_order
                        &&& ct.noise_level.0 == 1
                        &&& ct.degree.0 == ((self.packed_list.message_modulus.0 as int) * (
                        self.packed_list.carry_modulus.0 as int) - 1) / (
                        self.packed_list.message_modulus.0 as int)
                    },
            decreases block_count - b,
        {
            let unpacked = decomp_key.unpack(&self.packed_list, start_block_index + b);
            match unpacked {
                Ok(ct) => {
                    blocks.push(ct);
                },
                Err(_) => {
                    proof {
                        assert(false);
                    }
                },
            }
            b += 1;
        }
        Some((blocks, current_info))
    }

    /// Reassembles entry `index` as a value of type `T`: nothing past the
    /// end, a kind mismatch error if `T` does not accept the stored kind.
    pub fn get<T: Expandable>(&self, index: usize, decomp_key: &GlweDecompressionKey) -> (r:
        Option<Result<T, ExpandError>>)
        requires
            self.wf(),
            decomp_key.wf(),
            decomp_key.compatible_with(&self.packed_list),
        ensures
            r is Some <==> index < self.info@.len(),
            index < self.info@.len() ==> ((r->Some_0) is Ok <==> T::kind_matches(
                self.info@[index as int],
            )),
            // a returned value holds exactly the entry's unpacked blocks
            index < self.info@.len() && (r->Some_0) is Ok ==> {
                let v = (r->Some_0)->Ok_0;
                &&& v.blocks_spec().len() == self.info@[index as int].num_blocks_spec()
                &&& forall|b: int|
                    0 <= b < v.blocks_spec().len() ==> {
                        let ct = #[trigger] v.blocks_spec()[b];
                        &&& ct.wf()
                        &&& ct.ct.data@ =~= crate::compression::unpacked_ciphertext_data(
                            *decomp_key,
                            self.packed_list,
                            prefix_blocks(self.info@, index as int) + b,
                        )
                        &&& ct.message_modulus == self.packed_list.message_modulus
                        &&& ct.carry_modulus == self.packed_list.carry_modulus
                        &&& ct.pbs_order == self.packed_list.pbs_order
                        &&& ct.noise_level.0 == 1
                        &&& ct.degree.0 == ((self.packed_list.message_modulus.0 as int) * (
                        self.packed_list.carry_modulus.0 as int) - 1) / (
                        self.packed_list.message_modulus.0 as int)
                    }
            },
    {
        match self.blocks_of(index, decomp_key) {
            Some((blocks, kind)) => Some(T::from_expanded_blocks(blocks, kind)),
            None => None,
        }
    }
}

/// A client key for radix integers: the scalar client key and the default
/// number of blocks per integer.
pub struct RadixClientKey {
    pub key: ClientKey,
    pub num_blocks: usize,
}

/// Generates a radix client key and a matching server key.
pub fn gen_keys_radix(
    parameters: ClassicPBSParameters,
    num_blocks: usize,
    engine: &mut ShortintEngine,
) -> (r: (RadixClientKey, ServerKey))
    requires
        parameters.wf(),
    ensures
        r.0.key.wf(),
        r.0.num_blocks == num_blocks,
        r.0.key.parameters.pbs_params == PBSParameters::PBS(parameters),
        r.1.message_modulus == parameters.message_modulus,
{
    let (key, sks) = crate::client_key::gen_keys(parameters, engine);
    (RadixClientKey { key, num_blocks }, sks)
}

impl RadixClientKey {
    /// Encrypts `message` as an unsigned radix integer over
    /// `num_blocks` little-endian blocks in the message base.
    pub fn encrypt_radix(&self, message: u64, num_blocks: usize, engine: &mut ShortintEngine)
        -> (r: RadixCiphertext)
        requires
            self.key.wf(),
            num_blocks <= 0x1000,
        ensures
            r.blocks@.len() == num_blocks,
    {
        let mut rest = message;
        let mut blocks: Vec<Ciphertext> = Vec::new();
        let base = self.key.classic_message_modulus();
        while blocks.len() < num_blocks
            invariant
                self.key.wf(),
                blocks@.len() <= num_blocks,
                base == self.key.classic_parameters().message_modulus.0,
                base >= 1,
            decreases num_blocks - blocks@.len(),
        {
            let block_value = rest % (base as u64);
            rest = rest / (base as u64);
            let ct = self.key.encrypt(block_value, engine);
            blocks.push(ct);
        }
        RadixCiphertext { blocks }
    }

    /// Encrypts `message` with the key's default block count.
    pub fn encrypt(&self, message: u64, engine: &mut ShortintEngine) -> (r: RadixCiphertext)
        requires
            self.key.wf(),
            self.num_blocks <= 0x1000,
        ensures
            r.blocks@.len() == self.num_blocks,
    {
        self.encrypt_radix(message, self.num_blocks, engine)
    }

    /// Encrypts `message` as a signed radix integer: the blocks hold its
    /// two's complement.
    pub fn encrypt_signed_radix(
        &self,
        message: i64,
        num_blocks: usize,
        engine: &mut ShortintEngine,
    ) -> (r: SignedRadixCiphertext)
        requires
            self.key.wf(),
            num_blocks <= 0x1000,
        ensures
            r.blocks@.len() == num_blocks,
    {
        let unsigned = self.encrypt_radix(message as u64, num_blocks, engine);
        let RadixCiphertext { blocks } = unsigned;
        SignedRadixCiphertext { blocks }
    }

    /// Encrypts `message` with the key's default block count.
    pub fn encrypt_signed(&self, message: i64, engine: &mut ShortintEngine) -> (r:
        SignedRadixCiphertext)
        requires
            self.key.wf(),
            self.num_blocks <= 0x1000,
        ensures
            r.blocks@.len() == self.num_blocks,
    {
        self.encrypt_signed_radix(message, self.num_blocks, engine)
    }

    /// Encrypts a boolean as a single block holding zero or one.
    pub fn encrypt_bool(&self, message: bool, engine: &mut ShortintEngine) -> (r: BooleanBlock)
        requires
            self.key.wf(),
    {
        let value: u64 = if message {
            1
        } else {
            0
        };
        BooleanBlock(self.key.encrypt(value, engine))
    }

    /// Decrypts an unsigned radix integer: each block contributes its
    /// message digit in the message base, little-endian, modulo `2^64`.
    pub fn decrypt(&self, ct: &RadixCiphertext) -> (r: u64)
        requires
            self.key.wf(),
            forall|i: int|
                0 <= i < ct.blocks@.len() ==> {
                    let b = #[trigger] ct.blocks@[i];
                    &&& b.wf()
                    &&& b.ct.lwe_size_spec() == self.key.classic_parameters().glwe_dimension.0
                        * self.key.classic_parameters().polynomial_size.0 + 1
                    &&& b.message_modulus == self.key.classic_parameters().message_modulus
                    &&& b.carry_modulus == self.key.classic_parameters().carry_modulus
                },
    {
        let base = self.key.classic_message_modulus();
        let mut value: u64 = 0;
        let mut i: usize = ct.blocks.len();
        while i > 0
            invariant
                self.key.wf(),
                i <= ct.blocks@.len(),
                base == self.key.classic_parameters().message_modulus.0,
                base >= 1,
                forall|k: int|
                    0 <= k < ct.blocks@.len() ==> {
                        let b = #[trigger] ct.blocks@[k];
                        &&& b.wf()
                        &&& b.ct.lwe_size_spec()
                            == self.key.classic_parameters().glwe_dimension.0
                            * self.key.classic_parameters().polynomial_size.0 + 1
                        &&& b.message_modulus == self.key.classic_parameters().message_modulus
                        &&& b.carry_modulus == self.key.classic_parameters().carry_modulus
                    },
            decreases i,
        {
            i -= 1;
            let digit = self.key.decrypt_message_and_carry(&ct.blocks[i]) % (base as u64);
            value = value.wrapping_mul(base as u64).wrapping_add(digit);
        }
        value
    }

    /// Decrypts a signed radix integer: the unsigned reconstruction sign
    /// extended from the total bit width of its blocks.
    pub fn decrypt_signed(&self, ct: &SignedRadixCiphertext) -> (r: i64)
        requires
            self.key.wf(),
            ct.blocks@.len() <= 0x1000,
            forall|i: int|
                0 <= i < ct.blocks@.len() ==> {
                    let b = #[trigger] ct.blocks@[i];
                    &&& b.wf()
                    &&& b.ct.lwe_size_spec() == self.key.classic_parameters().glwe_dimension.0
                        * self.key.classic_parameters().polynomial_size.0 + 1
                    &&& b.message_modulus == self.key.classic_parameters().message_modulus
                    &&& b.carry_modulus == self.key.classic_parameters().carry_modulus
                },
    {
        let unsigned = RadixCiphertext { blocks: clone_blocks(&ct.blocks) };
        let value = self.decrypt(&unsigned);
        let base = self.key.classic_message_modulus();
        // bits carried by one block
        let mut bits_per_block: usize = 0;
        let mut reach: usize = 1;
        while reach < base && bits_per_block < 63
            invariant
                reach >= 1,
                reach <= 0xffff_fffe,
                base <= 0x8000_0000,
                bits_per_block <= 63,
            decreases 63 - bits_per_block,
        {
            reach = reach * 2;
            bits_per_block = bits_per_block + 1;
        }
        proof {
            assert((ct.blocks@.len() as int) * (bits_per_block as int) <= 0x1000 * 63)
                by (nonlinear_arith)
                requires
                    ct.blocks@.len() <= 0x1000,
                    bits_per_block <= 63,
            ;
        }
        let total_bits = ct.blocks.len() * bits_per_block;
        if total_bits == 0 {
            0
        } else if total_bits >= 64 {
            #[verifier::truncate] (value as i64)
        } else {
            let sign_bit = (value >> ((total_bits - 1) as u64)) & 1;
            if sign_bit == 1 {
                #[verifier::truncate] ((value | (u64::MAX << (total_bits as u64))) as i64)
            } else {
                #[verifier::truncate] (value as i64)
            }
        }
    }

    /// Decrypts a boolean block.
    pub fn decrypt_bool(&self, ct: &BooleanBlock) -> (r: bool)
        requires
            self.key.wf(),
            ct.0.wf(),
            ct.0.ct.lwe_size_spec() == self.key.classic_parameters().glwe_dimension.0
                * self.key.classic_parameters().polynomial_size.0 + 1,
            ct.0.message_modulus == self.key.classic_parameters().message_modulus,
            ct.0.carry_modulus == self.key.classic_parameters().carry_modulus,
    {
        self.key.decrypt_message_and_carry(&ct.0) != 0
    }
}

/// An element-for-element copy of a block vector.
fn clone_blocks(blocks: &Vec<Ciphertext>) -> (r: Vec<Ciphertext>)
    requires
        forall|i: int| 0 <= i < blocks@.len() ==> (#[trigger] blocks@[i]).wf(),
    ensures
        r@.len() == blocks@.len(),
        forall|i: int|
            0 <= i < r@.len() ==> {
                let a = #[trigger] r@[i];
                let b = blocks@[i];
                &&& a.wf()
                &&& a.ct.data@ =~= b.ct.data@
                &&& a.degree == b.degree
                &&& a.noise_level == b.noise_level
                &&& a.message_modulus == b.message_modulus
                &&& a.carry_modulus == b.carry_modulus
                &&& a.pbs_order == b.pbs_order
            },
{
    let mut out: Vec<Ciphertext> = Vec::new();
    let len = blocks.len();
    let mut i: usize = 0;
    while i < len
        invariant
            i <= len,
            len == blocks@.len(),
            out@.len() == i,
            forall|k: int| 0 <= k < len ==> (#[trigger] blocks@[k]).wf(),
            forall|k: int|
                0 <= k < i ==> {
                    let a = #[trigger] out@[k];
                    let b = blocks@[k];
                    &&& a.wf()
                    &&& a.ct.data@ =~= b.ct.data@
                    &&& a.degree == b.degree
                    &&& a.noise_level == b.noise_level
                    &&& a.message_modulus == b.message_modulus
                    &&& a.carry_modulus == b.carry_modulus
                    &&& a.pbs_order == b.pbs_order
                },
        decreases len - i,
    {
        let ct = crate::client_key::clone_ciphertext(&blocks[i]);
        out.push(ct);
        i += 1;
    }
    out
}

/// Prefix sums grow with the index.
proof fn lemma_prefix_monotonic(info: Seq<DataKind>, a: int, b: int)
    requires
        0 <= a <= b <= info.len(),
        forall|k: int| 0 <= k < info.len() ==> #[trigger] info[k].num_blocks_spec() >= 1,
    ensures
        prefix_blocks(info, a) <= prefix_blocks(info, b),
    decreases b - a,
{
    if a < b {
        lemma_prefix_blocks_bounds(info, a);
        lemma_prefix_monotonic(info, a + 1, b);
    }
}

} // verus!
