//! The header of a block, and the hash that identifies the block.

use crate::bytes::{
    decode_hash_at, fixed_parse, holds_at, lemma_holds_at_split, lemma_holds_at_start,
    lemma_subrange_join, push_all,
};
use crate::compact::{
    compact_parse, compact_wire, lemma_compact_parse_canonical, lemma_compact_parse_wire,
    lemma_compact_wire_len,
};
use crate::digest::{
    digest_parse, digest_wire, items_valid, lemma_digest_parse_canonical, lemma_digest_parse_wire,
    Digest, DigestItemView,
};
use crate::error::{advanced, outcome_view, DecodeError};
use crate::hash::{blake2_256_into, blake2b_256, collide};
use vstd::prelude::*;

verus! {

/// The header of a block. The three 256-bit fields are held as the 32 bytes
/// that stand for them on the wire.
#[derive(Debug, PartialEq, Eq, Clone)]
pub struct Header {
    /// The hash of the parent block; for the first block, a value agreed on.
    pub parent_hash: [u8; 32],
    /// The height of the block: one more than its parent's.
    pub number: u32,
    /// The root of the state trie after the block.
    pub state_root: [u8; 32],
    /// The root of the trie of the block's extrinsics.
    pub extrinsics_root: [u8; 32],
    /// What the chain attached to the block.
    pub digest: Digest,
}

/// The hash of a block.
#[derive(Debug, Clone, PartialEq, Eq)]
pub struct BlockHash(pub [u8; 32]);

/// The model of a header.
pub struct HeaderView {
    pub parent_hash: Seq<u8>,
    pub number: u32,
    pub state_root: Seq<u8>,
    pub extrinsics_root: Seq<u8>,
    pub digest: Seq<DigestItemView>,
}

impl View for Header {
    type V = HeaderView;

    open spec fn view(&self) -> HeaderView {
        HeaderView {
            parent_hash: self.parent_hash@,
            number: self.number,
            state_root: self.state_root@,
            extrinsics_root: self.extrinsics_root@,
            digest: self.digest@,
        }
    }
}

/// A block number at `pos`: a compact number that fits 32 bits.
pub open spec fn number_parse(s: Seq<u8>, pos: int) -> Result<(u32, int), DecodeError> {
    match compact_parse(s, pos) {
        Err(e) => Err(e),
        Ok((v, next)) => if v > u32::MAX {
            Err(DecodeError::Malformed)
        } else {
            Ok((v as u32, next))
        },
    }
}

impl HeaderView {
    /// The model is that of a header in memory: each 256-bit field has 32
    /// bytes, and the digest is one that memory can hold.
    pub open spec fn valid(self) -> bool {
        &&& self.parent_hash.len() == 32
        &&& self.state_root.len() == 32
        &&& self.extrinsics_root.len() == 32
        &&& self.digest.len() < 0x1_0000_0000_0000_0000
        &&& items_valid(self.digest)
    }

    /// The wire form: the parent's hash, the number in compact form, the two
    /// roots, the digest.
    pub open spec fn wire(self) -> Seq<u8> {
        self.parent_hash + (compact_wire(self.number as nat) + (self.state_root + (
        self.extrinsics_root + digest_wire(self.digest))))
    }

    /// A header at `pos`, field by field in the order of the wire form.
    pub open spec fn parse(s: Seq<u8>, pos: int) -> Result<(HeaderView, int), DecodeError> {
        match fixed_parse(s, pos, 32) {
            Err(e) => Err(e),
            Ok((parent_hash, at_number)) => match number_parse(s, at_number) {
                Err(e) => Err(e),
                Ok((number, at_state)) => match fixed_parse(s, at_state, 32) {
                    Err(e) => Err(e),
                    Ok((state_root, at_extrinsics)) => match fixed_parse(s, at_extrinsics, 32) {
                        Err(e) => Err(e),
                        Ok((extrinsics_root, at_digest)) => match digest_parse(s, at_digest) {
                            Err(e) => Err(e),
                            Ok((digest, next)) => Ok(
                                (
                                    HeaderView {
                                        parent_hash,
                                        number,
                                        state_root,
                                        extrinsics_root,
                                        digest,
                                    },
                                    next,
                                ),
                            ),
                        },
                    },
                },
            },
        }
    }

    /// The hash of the header: the digest of its wire form.
    pub open spec fn block_hash(self) -> Seq<u8> {
        blake2b_256(self.wire())
    }

    /// Where the wire form of a header stands, the parser reads the header.
    pub proof fn lemma_parse_wire(self, s: Seq<u8>, pos: int)
        requires
            self.valid(),
            holds_at(s, pos, self.wire()),
        ensures
            self.wire().len() >= 98,
            Self::parse(s, pos) == Ok::<(HeaderView, int), DecodeError>(
                (self, pos + self.wire().len()),
            ),
    {
        let number = compact_wire(self.number as nat);
        let digest = digest_wire(self.digest);
        let after_roots = self.extrinsics_root + digest;
        let after_number = self.state_root + after_roots;
        lemma_holds_at_split(s, pos, self.parent_hash, number + after_number);
        lemma_holds_at_split(s, pos + 32, number, after_number);
        lemma_compact_wire_len(self.number as nat);
        lemma_compact_parse_wire(s, pos + 32, self.number as nat);
        let at_state = pos + 32 + number.len();
        lemma_holds_at_split(s, at_state, self.state_root, after_roots);
        lemma_holds_at_split(s, at_state + 32, self.extrinsics_root, digest);
        lemma_digest_parse_wire(s, at_state + 64, self.digest);
    }

    /// What the parser read as a header is the wire form of a valid header.
    pub proof fn lemma_parse_canonical(s: Seq<u8>, pos: int)
        ensures
            Self::parse(s, pos) matches Ok((header, next)) ==> header.valid() && 0 <= pos < next
                && next <= s.len() && s.subrange(pos, next) == header.wire(),
    {
        if let Ok((header, next)) = Self::parse(s, pos) {
            let at_number = pos + 32;
            lemma_compact_parse_canonical(s, at_number);
            let at_state = number_parse(s, at_number)->Ok_0.1;
            let at_digest = at_state + 64;
            lemma_digest_parse_canonical(s, at_digest);
            lemma_subrange_join(s, at_state + 32, at_digest, next);
            lemma_subrange_join(s, at_state, at_state + 32, next);
            lemma_subrange_join(s, at_number, at_state, next);
            lemma_subrange_join(s, pos, at_number, next);
        }
    }
}

impl Header {
    /// The wire form.
    pub open spec fn wire(&self) -> Seq<u8> {
        self@.wire()
    }

    /// Appends the wire form to `dest`.
    pub fn encode_to(&self, dest: &mut Vec<u8>)
        ensures
            final(dest)@ == old(dest)@ + self.wire(),
    {
        push_all(dest, self.parent_hash.as_slice());
        crate::compact::encode_to(self.number as u64, dest);
        push_all(dest, self.state_root.as_slice());
        push_all(dest, self.extrinsics_root.as_slice());
        self.digest.encode_to(dest);
    }

    /// The wire form.
    pub fn encode(&self) -> (out: Vec<u8>)
        ensures
            out@ == self.wire(),
    {
        let mut out: Vec<u8> = Vec::new();
        self.encode_to(&mut out);
        out
    }

    /// Reads a header at `pos`; gives it with the position after it.
    pub fn decode_at(data: &[u8], pos: usize) -> (r: Result<(Header, usize), DecodeError>)
        ensures
            outcome_view(r) == HeaderView::parse(data@, pos as int),
            advanced(r, pos, data@.len()),
    {
        let (parent_hash, at_number) = match decode_hash_at(data, pos) {
            Ok(found) => found,
            Err(e) => {
                return Err(e);
            },
        };
        let (number, at_state) = match crate::compact::decode_at(data, at_number) {
            Ok(found) => found,
            Err(e) => {
                return Err(e);
            },
        };
        if number > u32::MAX as u64 {
            return Err(DecodeError::Malformed);
        }
        let (state_root, at_extrinsics) = match decode_hash_at(data, at_state) {
            Ok(found) => found,
            Err(e) => {
                return Err(e);
            },
        };
        let (extrinsics_root, at_digest) = match decode_hash_at(data, at_extrinsics) {
            Ok(found) => found,
            Err(e) => {
                return Err(e);
            },
        };
        let (digest, next) = match Digest::decode_at(data, at_digest) {
            Ok(found) => found,
            Err(e) => {
                return Err(e);
            },
        };
        let number: u32 = number as u32;
        Ok((Header { parent_hash, number, state_root, extrinsics_root, digest }, next))
    }

    /// Reads a header at the start of `data`; gives it with the number of
    /// bytes it took.
    pub fn decode(data: &[u8]) -> (r: Result<(Header, usize), DecodeError>)
        ensures
            outcome_view(r) == HeaderView::parse(data@, 0),
            advanced(r, 0, data@.len()),
    {
        Self::decode_at(data, 0)
    }

    /// The hash of the header, and thus of the block: the 256-bit BLAKE2b
    /// digest of the wire form. It is computed anew at each call.
    pub fn block_hash(&self) -> (hash: BlockHash)
        ensures
            hash.0@ == self@.block_hash(),
    {
        let mut out: [u8; 32] = [0; 32];
        let encoded: Vec<u8> = self.encode();
        blake2_256_into(encoded.as_slice(), &mut out);
        BlockHash(out)
    }

    /// The model of a header in memory is valid.
    pub proof fn lemma_valid(self)
        ensures
            self@.valid(),
    {
        self.digest.lemma_valid();
    }

    /// Decoding the wire form of a header gives the header back and consumes
    /// the whole form.
    pub proof fn lemma_round_trip(self)
        ensures
            HeaderView::parse(self.wire(), 0) == Ok::<(HeaderView, int), DecodeError>(
                (self@, self.wire().len() as int),
            ),
    {
        self.lemma_valid();
        lemma_holds_at_start(self.wire());
        self@.lemma_parse_wire(self.wire(), 0);
    }

    /// Headers with the same fields have the same wire form.
    pub proof fn lemma_encode_deterministic(self, other: Header)
        requires
            self@ == other@,
        ensures
            self.wire() == other.wire(),
    {
    }

    /// Headers that differ in any field differ in their wire form.
    pub proof fn lemma_wire_tells_apart(self, other: Header)
        requires
            self@ != other@,
        ensures
            self.wire() != other.wire(),
    {
        self.lemma_round_trip();
        other.lemma_round_trip();
    }

    /// Headers with the same fields have the same hash.
    pub proof fn lemma_same_fields_same_hash(self, other: Header)
        requires
            self@ == other@,
        ensures
            self@.block_hash() == other@.block_hash(),
    {
    }

    /// Headers that differ in any field have different hashes, unless the hash
    /// primitive gives one digest to their two wire forms.
    pub proof fn lemma_changed_field_changes_hash(self, other: Header)
        requires
            self@ != other@,
            !collide(self.wire(), other.wire()),
        ensures
            self@.block_hash() != other@.block_hash(),
    {
        self.lemma_wire_tells_apart(other);
    }
}

} // verus!
