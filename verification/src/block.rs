//! A block: its header and its extrinsics.
//!
//! The core carries a block and gives it a wire form. Whether the extrinsics
//! match the header's root, or lead to its state, is for a verifier to say.

use crate::bytes::{
    blob_list_parse, blob_list_wire, blobs_fit, blobs_parse, blobs_wire, bytes_parse, bytes_wire,
    decode_bytes_at, encode_bytes_to, holds_at, lemma_blob_list_parse_canonical,
    lemma_blob_list_parse_wire, lemma_blobs_wire_push, lemma_bytes_parse_wire, lemma_holds_at_split,
    lemma_holds_at_start, lemma_subrange_join, lemma_vec_fits, prepend,
};
use crate::compact::compact_wire;
use crate::error::{advanced, outcome_view, DecodeError};
use crate::header::{BlockHash, Header, HeaderView};
use vstd::prelude::*;

verus! {

/// A transaction as the block carries it: bytes that the core does not read.
#[derive(Debug, PartialEq, Eq, Clone)]
pub struct Extrinsic(pub Vec<u8>);

impl View for Extrinsic {
    type V = Seq<u8>;

    open spec fn view(&self) -> Seq<u8> {
        self.0@
    }
}

impl Default for Extrinsic {
    fn default() -> (e: Extrinsic)
        ensures
            e@ == Seq::<u8>::empty(),
    {
        Extrinsic(Vec::new())
    }
}

impl Extrinsic {
    /// The wire form: the bytes behind their length.
    pub open spec fn wire(&self) -> Seq<u8> {
        bytes_wire(self@)
    }

    /// Appends the wire form to `dest`.
    pub fn encode_to(&self, dest: &mut Vec<u8>)
        ensures
            final(dest)@ == old(dest)@ + self.wire(),
    {
        encode_bytes_to(self.0.as_slice(), dest);
    }

    /// The wire form.
    pub fn encode(&self) -> (out: Vec<u8>)
        ensures
            out@ == self.wire(),
    {
        let mut out: Vec<u8> = Vec::new();
        self.encode_to(&mut out);
        out
    }

    /// Reads an extrinsic at `pos`; gives it with the position after it.
    pub fn decode_at(data: &[u8], pos: usize) -> (r: Result<(Extrinsic, usize), DecodeError>)
        ensures
            outcome_view(r) == bytes_parse(data@, pos as int),
            advanced(r, pos, data@.len()),
    {
        match decode_bytes_at(data, pos) {
            Err(e) => Err(e),
            Ok((bytes, next)) => Ok((Extrinsic(bytes), next)),
        }
    }

    /// Reads an extrinsic at the start of `data`; gives it with the number of
    /// bytes it took.
    pub fn decode(data: &[u8]) -> (r: Result<(Extrinsic, usize), DecodeError>)
        ensures
            outcome_view(r) == bytes_parse(data@, 0),
            advanced(r, 0, data@.len()),
    {
        Self::decode_at(data, 0)
    }

    /// Decoding the wire form of an extrinsic gives the extrinsic back and
    /// consumes the whole form.
    pub proof fn lemma_round_trip(self)
        ensures
            bytes_parse(self.wire(), 0) == Ok::<(Seq<u8>, int), DecodeError>(
                (self@, self.wire().len() as int),
            ),
    {
        lemma_vec_fits(self.0);
        lemma_holds_at_start(self.wire());
        lemma_bytes_parse_wire(self.wire(), 0, self@);
    }
}

/// The models of the extrinsics of `list`, in order.
pub open spec fn extrinsics_view(list: Seq<Extrinsic>) -> Seq<Seq<u8>> {
    Seq::new(list.len(), |i: int| list[i]@)
}

/// A block: its header and its extrinsics, in order.
#[derive(Debug, PartialEq, Eq, Clone)]
pub struct Block {
    /// The header of the block.
    pub header: Header,
    /// The extrinsics that come with it.
    pub extrinsics: Vec<Extrinsic>,
}

/// The model of a block.
pub struct BlockView {
    pub header: HeaderView,
    pub extrinsics: Seq<Seq<u8>>,
}

impl View for Block {
    type V = BlockView;

    open spec fn view(&self) -> BlockView {
        BlockView { header: self.header@, extrinsics: extrinsics_view(self.extrinsics@) }
    }
}

impl BlockView {
    /// The model is that of a block in memory.
    pub open spec fn valid(self) -> bool {
        &&& self.header.valid()
        &&& self.extrinsics.len() < 0x1_0000_0000_0000_0000
        &&& blobs_fit(self.extrinsics)
    }

    /// The wire form: the header, then the list of the extrinsics.
    pub open spec fn wire(self) -> Seq<u8> {
        self.header.wire() + blob_list_wire(self.extrinsics)
    }

    /// A block at `pos`.
    pub open spec fn parse(s: Seq<u8>, pos: int) -> Result<(BlockView, int), DecodeError> {
        match HeaderView::parse(s, pos) {
            Err(e) => Err(e),
            Ok((header, at_extrinsics)) => match blob_list_parse(s, at_extrinsics) {
                Err(e) => Err(e),
                Ok((extrinsics, next)) => Ok((BlockView { header, extrinsics }, next)),
            },
        }
    }

    /// Where the wire form of a block stands, the parser reads the block.
    pub proof fn lemma_parse_wire(self, s: Seq<u8>, pos: int)
        requires
            self.valid(),
            holds_at(s, pos, self.wire()),
        ensures
            Self::parse(s, pos) == Ok::<(BlockView, int), DecodeError>(
                (self, pos + self.wire().len()),
            ),
    {
        lemma_holds_at_split(s, pos, self.header.wire(), blob_list_wire(self.extrinsics));
        self.header.lemma_parse_wire(s, pos);
        lemma_blob_list_parse_wire(s, pos + self.header.wire().len(), self.extrinsics);
    }

    /// What the parser read as a block is the wire form of a valid block.
    pub proof fn lemma_parse_canonical(s: Seq<u8>, pos: int)
        ensures
            Self::parse(s, pos) matches Ok((block, next)) ==> block.valid() && 0 <= pos < next
                && next <= s.len() && s.subrange(pos, next) == block.wire(),
    {
        HeaderView::lemma_parse_canonical(s, pos);
        if let Ok((header, at_extrinsics)) = HeaderView::parse(s, pos) {
            lemma_blob_list_parse_canonical(s, at_extrinsics);
            if let Ok((extrinsics, next)) = blob_list_parse(s, at_extrinsics) {
                lemma_subrange_join(s, pos, at_extrinsics, next);
            }
        }
    }
}

impl Block {
    /// The wire form.
    pub open spec fn wire(&self) -> Seq<u8> {
        self@.wire()
    }

    /// Appends the wire form to `dest`.
    pub fn encode_to(&self, dest: &mut Vec<u8>)
        ensures
            final(dest)@ == old(dest)@ + self.wire(),
    {
        self.header.encode_to(dest);
        let count: usize = self.extrinsics.len();
        crate::compact::encode_to(count as u64, dest);
        let ghost base = dest@;
        let ghost list = self@.extrinsics;
        let mut i: usize = 0;
        while i < count
            invariant
                i <= count == self.extrinsics@.len(),
                list == extrinsics_view(self.extrinsics@),
                base == old(dest)@ + self.header.wire() + compact_wire(count as nat),
                dest@ == base + blobs_wire(list.take(i as int)),
            decreases count - i,
        {
            self.extrinsics[i].encode_to(dest);
            proof {
                let done = list.take(i as int);
                assert(list.take(i + 1) =~= done.push(list[i as int]));
                lemma_blobs_wire_push(done, list[i as int]);
            }
            i = i + 1;
        }
        assert(list.take(count as int) =~= list);
    }

    /// The wire form.
    pub fn encode(&self) -> (out: Vec<u8>)
        ensures
            out@ == self.wire(),
    {
        let mut out: Vec<u8> = Vec::new();
        self.encode_to(&mut out);
        out
    }

    /// Reads a block at `pos`; gives it with the position after it.
    pub fn decode_at(data: &[u8], pos: usize) -> (r: Result<(Block, usize), DecodeError>)
        ensures
            outcome_view(r) == BlockView::parse(data@, pos as int),
            advanced(r, pos, data@.len()),
    {
        let (header, at_extrinsics) = match Header::decode_at(data, pos) {
            Ok(found) => found,
            Err(e) => {
                return Err(e);
            },
        };
        let (count, start) = match crate::compact::decode_at(data, at_extrinsics) {
            Ok(found) => found,
            Err(e) => {
                return Err(e);
            },
        };
        if count > (data.len() - start) as u64 {
            return Err(DecodeError::InvalidLength);
        }
        let count: usize = count as usize;
        let mut extrinsics: Vec<Extrinsic> = Vec::new();
        let mut next: usize = start;
        let mut i: usize = 0;
        while i < count
            invariant
                i <= count,
                pos < start <= next <= data@.len(),
                extrinsics@.len() == i,
                blob_list_parse(data@, at_extrinsics as int) == blobs_parse(
                    data@,
                    start as int,
                    count as nat,
                ),
                blobs_parse(data@, start as int, count as nat) == prepend(
                    extrinsics_view(extrinsics@),
                    blobs_parse(data@, next as int, (count - i) as nat),
                ),
                HeaderView::parse(data@, pos as int) == Ok::<(HeaderView, int), DecodeError>(
                    (header@, at_extrinsics as int),
                ),
            decreases count - i,
        {
            let ghost seen = extrinsics_view(extrinsics@);
            match Extrinsic::decode_at(data, next) {
                Err(e) => {
                    return Err(e);
                },
                Ok((extrinsic, after)) => {
                    extrinsics.push(extrinsic);
                    proof {
                        let rest = blobs_parse(data@, after as int, (count - i - 1) as nat);
                        assert(extrinsics_view(extrinsics@) =~= seen.push(extrinsic@));
                        assert(prepend(seen, prepend(seq![extrinsic@], rest)) == prepend(
                            extrinsics_view(extrinsics@),
                            rest,
                        )) by {
                            if let Ok((tail, end)) = rest {
                                assert(seen + (seq![extrinsic@] + tail) =~= seen.push(extrinsic@)
                                    + tail);
                            }
                        }
                    }
                    next = after;
                    i = i + 1;
                },
            }
        }
        assert(extrinsics_view(extrinsics@) + Seq::<Seq<u8>>::empty() =~= extrinsics_view(
            extrinsics@,
        ));
        Ok((Block { header, extrinsics }, next))
    }

    /// Reads a block at the start of `data`; gives it with the number of bytes
    /// it took.
    pub fn decode(data: &[u8]) -> (r: Result<(Block, usize), DecodeError>)
        ensures
            outcome_view(r) == BlockView::parse(data@, 0),
            advanced(r, 0, data@.len()),
    {
        Self::decode_at(data, 0)
    }

    /// The hash of the block: that of its header. The extrinsics enter it
    /// only through the header's root.
    pub fn block_hash(&self) -> (hash: BlockHash)
        ensures
            hash.0@ == self@.header.block_hash(),
    {
        self.header.block_hash()
    }

    /// The model of a block in memory is valid.
    pub proof fn lemma_valid(self)
        ensures
            self@.valid(),
    {
        self.header.lemma_valid();
        lemma_vec_fits(self.extrinsics);
        assert forall|i: int| 0 <= i < self@.extrinsics.len() implies (
        #[trigger] self@.extrinsics[i]).len() < 0x1_0000_0000_0000_0000 by {
            lemma_vec_fits(self.extrinsics@[i].0);
        }
    }

    /// Decoding the wire form of a block gives the block back and consumes the
    /// whole form.
    pub proof fn lemma_round_trip(self)
        ensures
            BlockView::parse(self.wire(), 0) == Ok::<(BlockView, int), DecodeError>(
                (self@, self.wire().len() as int),
            ),
    {
        self.lemma_valid();
        lemma_holds_at_start(self.wire());
        self@.lemma_parse_wire(self.wire(), 0);
    }

    /// Blocks with the same content have the same wire form.
    pub proof fn lemma_encode_deterministic(self, other: Block)
        requires
            self@ == other@,
        ensures
            self.wire() == other.wire(),
    {
    }
}

} // verus!
