//! The digest of a header: an ordered log of tagged items.
//!
//! An item is written as its tag, in compact form, and then the payload that
//! the tag announces. An owning item and a borrowing one have the same model
//! and therefore the same bytes.

use crate::bytes::{
    bytes_parse, bytes_wire, decode_bytes_at, decode_engine_id_at, decode_hash_at, encode_bytes_to,
    fixed_parse, holds_at, lemma_bytes_parse_canonical, lemma_bytes_parse_wire,
    lemma_holds_at_split, lemma_holds_at_start, lemma_subrange_join, lemma_vec_fits, prepend,
    push_all,
};
use crate::compact::{
    compact_parse, compact_wire, lemma_compact_parse_canonical, lemma_compact_parse_wire,
    lemma_compact_wire_len,
};
use crate::changes_trie::ChangesTrieSignal;
use crate::error::{advanced, outcome, outcome_view, DecodeError};
use vstd::prelude::*;

verus! {

/// The kind of a digest item. Each kind has a number of its own on the wire,
/// given by `tag` and not by the order of the variants; 1 and 3 name no kind.
#[derive(Debug, Clone, Copy, PartialEq, Eq, Structural)]
pub enum DigestItemType {
    Other,
    ChangesTrieRoot,
    Consensus,
    Seal,
    PreRuntime,
    ChangesTrieSignal,
}

impl DigestItemType {
    /// The number that stands for this kind on the wire.
    pub open spec fn spec_tag(self) -> u32 {
        match self {
            DigestItemType::Other => 0,
            DigestItemType::ChangesTrieRoot => 2,
            DigestItemType::Consensus => 4,
            DigestItemType::Seal => 5,
            DigestItemType::PreRuntime => 6,
            DigestItemType::ChangesTrieSignal => 7,
        }
    }

    /// The kind that `tag` stands for, if any.
    pub open spec fn spec_from_tag(tag: nat) -> Option<DigestItemType> {
        if tag == 0 {
            Some(DigestItemType::Other)
        } else if tag == 2 {
            Some(DigestItemType::ChangesTrieRoot)
        } else if tag == 4 {
            Some(DigestItemType::Consensus)
        } else if tag == 5 {
            Some(DigestItemType::Seal)
        } else if tag == 6 {
            Some(DigestItemType::PreRuntime)
        } else if tag == 7 {
            Some(DigestItemType::ChangesTrieSignal)
        } else {
            None
        }
    }

    /// The wire form: the tag as a compact number.
    pub open spec fn wire(self) -> Seq<u8> {
        compact_wire(self.spec_tag() as nat)
    }

    /// A kind at `pos`: a compact number that names one.
    pub open spec fn parse(s: Seq<u8>, pos: int) -> Result<(DigestItemType, int), DecodeError> {
        match compact_parse(s, pos) {
            Err(e) => Err(e),
            Ok((tag, next)) => match Self::spec_from_tag(tag) {
                None => Err(DecodeError::InvalidDiscriminant),
                Some(kind) => Ok((kind, next)),
            },
        }
    }

    /// The number that stands for this kind on the wire.
    #[verifier::when_used_as_spec(spec_tag)]
    pub fn tag(self) -> (t: u32)
        ensures
            t == self.spec_tag(),
    {
        match self {
            DigestItemType::Other => 0,
            DigestItemType::ChangesTrieRoot => 2,
            DigestItemType::Consensus => 4,
            DigestItemType::Seal => 5,
            DigestItemType::PreRuntime => 6,
            DigestItemType::ChangesTrieSignal => 7,
        }
    }

    /// The kind that `tag` stands for, if any.
    pub fn from_tag(tag: u64) -> (kind: Option<DigestItemType>)
        ensures
            kind == Self::spec_from_tag(tag as nat),
    {
        if tag == 0 {
            Some(DigestItemType::Other)
        } else if tag == 2 {
            Some(DigestItemType::ChangesTrieRoot)
        } else if tag == 4 {
            Some(DigestItemType::Consensus)
        } else if tag == 5 {
            Some(DigestItemType::Seal)
        } else if tag == 6 {
            Some(DigestItemType::PreRuntime)
        } else if tag == 7 {
            Some(DigestItemType::ChangesTrieSignal)
        } else {
            None
        }
    }

    /// Appends the wire form to `dest`.
    pub fn encode_to(&self, dest: &mut Vec<u8>)
        ensures
            final(dest)@ == old(dest)@ + self.wire(),
    {
        crate::compact::encode_to(self.tag() as u64, dest);
    }

    /// The wire form.
    pub fn encode(&self) -> (out: Vec<u8>)
        ensures
            out@ == self.wire(),
    {
        crate::compact::encode(self.tag() as u64)
    }

    /// Reads a kind at `pos`; gives it with the position after it.
    pub fn decode_at(data: &[u8], pos: usize) -> (r: Result<(DigestItemType, usize), DecodeError>)
        ensures
            outcome(r) == Self::parse(data@, pos as int),
            advanced(r, pos, data@.len()),
    {
        match crate::compact::decode_at(data, pos) {
            Err(e) => Err(e),
            Ok((tag, next)) => match Self::from_tag(tag) {
                None => Err(DecodeError::InvalidDiscriminant),
                Some(kind) => Ok((kind, next)),
            },
        }
    }

    /// Reads a kind at the start of `data`; gives it with the number of bytes
    /// it took.
    pub fn decode(data: &[u8]) -> (r: Result<(DigestItemType, usize), DecodeError>)
        ensures
            outcome(r) == Self::parse(data@, 0),
            advanced(r, 0, data@.len()),
    {
        Self::decode_at(data, 0)
    }

    /// A tag names a kind exactly when it is 0, 2, 4, 5, 6 or 7, and the kind
    /// it names has that tag.
    pub proof fn lemma_tags(tag: nat)
        ensures
            Self::spec_from_tag(tag) is Some <==> (tag == 0 || tag == 2 || tag == 4 || tag == 5
                || tag == 6 || tag == 7),
            Self::spec_from_tag(tag) matches Some(kind) ==> kind.spec_tag() == tag,
    {
    }

    /// Each kind is found again from its tag, and its wire form is one byte.
    pub proof fn lemma_tag_round_trip(self)
        ensures
            Self::spec_from_tag(self.spec_tag() as nat) == Some(self),
            self.wire().len() == 1,
    {
        lemma_compact_wire_len(self.spec_tag() as nat);
    }

    /// Where the wire form of a kind stands, the parser reads the kind.
    pub proof fn lemma_parse_wire(self, s: Seq<u8>, pos: int)
        requires
            holds_at(s, pos, self.wire()),
        ensures
            Self::parse(s, pos) == Ok::<(DigestItemType, int), DecodeError>((self, pos + 1)),
    {
        self.lemma_tag_round_trip();
        lemma_compact_parse_wire(s, pos, self.spec_tag() as nat);
    }

    /// What the parser read as a kind is the kind's wire form.
    pub proof fn lemma_parse_canonical(s: Seq<u8>, pos: int)
        ensures
            Self::parse(s, pos) matches Ok((kind, next)) ==> 0 <= pos && next == pos + 1 && next
                <= s.len() && s.subrange(pos, next) == kind.wire(),
    {
        lemma_compact_parse_canonical(s, pos);
        if let Ok((tag, next)) = compact_parse(s, pos) {
            lemma_compact_wire_len(tag);
        }
    }
}

/// A digest item that owns its payload.
#[derive(Debug, PartialEq, Eq, Clone)]
pub enum DigestItem {
    /// The root of the changes trie at this block.
    ChangesTrieRoot([u8; 32]),
    /// A message from the consensus engine to the runtime, made before the
    /// block runs: the engine's id and its payload.
    PreRuntime([u8; 4], Vec<u8>),
    /// A message from the runtime to the consensus engine.
    Consensus([u8; 4], Vec<u8>),
    /// The seal that the consensus engine puts on the block.
    Seal([u8; 4], Vec<u8>),
    /// A signal of the changes-trie manager.
    ChangesTrieSignal(ChangesTrieSignal),
    /// Anything else, opaque to the core.
    Other(Vec<u8>),
}

/// A digest item that borrows its payload from whoever holds it, so that the
/// payload can be encoded without a copy.
#[derive(Debug, PartialEq, Eq, Clone)]
pub enum DigestItemRef<'a> {
    /// The root of the changes trie at this block.
    ChangesTrieRoot(&'a [u8; 32]),
    /// A message from the consensus engine to the runtime, made before the
    /// block runs: the engine's id and its payload.
    PreRuntime(&'a [u8; 4], &'a Vec<u8>),
    /// A message from the runtime to the consensus engine.
    Consensus(&'a [u8; 4], &'a Vec<u8>),
    /// The seal that the consensus engine puts on the block.
    Seal(&'a [u8; 4], &'a Vec<u8>),
    /// A signal of the changes-trie manager.
    ChangesTrieSignal(&'a ChangesTrieSignal),
    /// Anything else, opaque to the core.
    Other(&'a Vec<u8>),
}

/// What a digest item holds, owned or borrowed: the model of both.
pub enum DigestItemView {
    ChangesTrieRoot(Seq<u8>),
    PreRuntime(Seq<u8>, Seq<u8>),
    Consensus(Seq<u8>, Seq<u8>),
    Seal(Seq<u8>, Seq<u8>),
    ChangesTrieSignal(ChangesTrieSignal),
    Other(Seq<u8>),
}

impl View for DigestItem {
    type V = DigestItemView;

    open spec fn view(&self) -> DigestItemView {
        match *self {
            DigestItem::ChangesTrieRoot(root) => DigestItemView::ChangesTrieRoot(root@),
            DigestItem::PreRuntime(id, data) => DigestItemView::PreRuntime(id@, data@),
            DigestItem::Consensus(id, data) => DigestItemView::Consensus(id@, data@),
            DigestItem::Seal(id, data) => DigestItemView::Seal(id@, data@),
            DigestItem::ChangesTrieSignal(signal) => DigestItemView::ChangesTrieSignal(signal),
            DigestItem::Other(data) => DigestItemView::Other(data@),
        }
    }
}

impl<'a> View for DigestItemRef<'a> {
    type V = DigestItemView;

    open spec fn view(&self) -> DigestItemView {
        match *self {
            DigestItemRef::ChangesTrieRoot(root) => DigestItemView::ChangesTrieRoot(root@),
            DigestItemRef::PreRuntime(id, data) => DigestItemView::PreRuntime(id@, data@),
            DigestItemRef::Consensus(id, data) => DigestItemView::Consensus(id@, data@),
            DigestItemRef::Seal(id, data) => DigestItemView::Seal(id@, data@),
            DigestItemRef::ChangesTrieSignal(signal) => DigestItemView::ChangesTrieSignal(*signal),
            DigestItemRef::Other(data) => DigestItemView::Other(data@),
        }
    }
}

/// An engine's id and its payload at `pos`: four raw bytes, then a byte string.
pub open spec fn engine_parse(s: Seq<u8>, pos: int) -> Result<
    ((Seq<u8>, Seq<u8>), int),
    DecodeError,
> {
    match fixed_parse(s, pos, 4) {
        Err(e) => Err(e),
        Ok((id, mid)) => match bytes_parse(s, mid) {
            Err(e) => Err(e),
            Ok((data, next)) => Ok(((id, data), next)),
        },
    }
}

/// What the parser read as an engine's id and its payload is the id, then
/// the payload as a byte string.
pub proof fn lemma_engine_parse_canonical(s: Seq<u8>, pos: int)
    ensures
        engine_parse(s, pos) matches Ok(((id, data), next)) ==> id.len() == 4 && data.len()
            < 0x1_0000_0000_0000_0000 && 0 <= pos < next && next <= s.len() && s.subrange(
            pos,
            next,
        ) == id + bytes_wire(data),
{
    if 0 <= pos && pos + 4 <= s.len() {
        lemma_bytes_parse_canonical(s, pos + 4);
        if let Ok((data, next)) = bytes_parse(s, pos + 4) {
            lemma_subrange_join(s, pos, pos + 4, next);
        }
    }
}

impl DigestItemView {
    /// The kind of the item.
    pub open spec fn kind(self) -> DigestItemType {
        match self {
            DigestItemView::ChangesTrieRoot(_) => DigestItemType::ChangesTrieRoot,
            DigestItemView::PreRuntime(_, _) => DigestItemType::PreRuntime,
            DigestItemView::Consensus(_, _) => DigestItemType::Consensus,
            DigestItemView::Seal(_, _) => DigestItemType::Seal,
            DigestItemView::ChangesTrieSignal(_) => DigestItemType::ChangesTrieSignal,
            DigestItemView::Other(_) => DigestItemType::Other,
        }
    }

    /// The model is that of an item in memory: a root has 32 bytes, an
    /// engine's id 4, and a payload's length fits 64 bits.
    pub open spec fn valid(self) -> bool {
        match self {
            DigestItemView::ChangesTrieRoot(root) => root.len() == 32,
            DigestItemView::PreRuntime(id, data) => id.len() == 4 && data.len()
                < 0x1_0000_0000_0000_0000,
            DigestItemView::Consensus(id, data) => id.len() == 4 && data.len()
                < 0x1_0000_0000_0000_0000,
            DigestItemView::Seal(id, data) => id.len() == 4 && data.len()
                < 0x1_0000_0000_0000_0000,
            DigestItemView::ChangesTrieSignal(_) => true,
            DigestItemView::Other(data) => data.len() < 0x1_0000_0000_0000_0000,
        }
    }

    /// What follows the tag: the root as it is; an engine's id, then its
    /// payload as a byte string; a signal; a byte string.
    pub open spec fn payload_wire(self) -> Seq<u8> {
        match self {
            DigestItemView::ChangesTrieRoot(root) => root,
            DigestItemView::PreRuntime(id, data) => id + bytes_wire(data),
            DigestItemView::Consensus(id, data) => id + bytes_wire(data),
            DigestItemView::Seal(id, data) => id + bytes_wire(data),
            DigestItemView::ChangesTrieSignal(signal) => signal.wire(),
            DigestItemView::Other(data) => bytes_wire(data),
        }
    }

    /// The wire form: the tag of the kind, then the payload.
    pub open spec fn wire(self) -> Seq<u8> {
        self.kind().wire() + self.payload_wire()
    }

    /// The payload that `kind` announces, at `pos`.
    pub open spec fn parse_payload(kind: DigestItemType, s: Seq<u8>, pos: int) -> Result<
        (DigestItemView, int),
        DecodeError,
    > {
        match kind {
            DigestItemType::ChangesTrieRoot => match fixed_parse(s, pos, 32) {
                Err(e) => Err(e),
                Ok((root, next)) => Ok((DigestItemView::ChangesTrieRoot(root), next)),
            },
            DigestItemType::PreRuntime => match engine_parse(s, pos) {
                Err(e) => Err(e),
                Ok(((id, data), next)) => Ok((DigestItemView::PreRuntime(id, data), next)),
            },
            DigestItemType::Consensus => match engine_parse(s, pos) {
                Err(e) => Err(e),
                Ok(((id, data), next)) => Ok((DigestItemView::Consensus(id, data), next)),
            },
            DigestItemType::Seal => match engine_parse(s, pos) {
                Err(e) => Err(e),
                Ok(((id, data), next)) => Ok((DigestItemView::Seal(id, data), next)),
            },
            DigestItemType::ChangesTrieSignal => match ChangesTrieSignal::parse(s, pos) {
                Err(e) => Err(e),
                Ok((signal, next)) => Ok((DigestItemView::ChangesTrieSignal(signal), next)),
            },
            DigestItemType::Other => match bytes_parse(s, pos) {
                Err(e) => Err(e),
                Ok((data, next)) => Ok((DigestItemView::Other(data), next)),
            },
        }
    }

    /// An item at `pos`: its tag, then the payload that the tag announces.
    pub open spec fn parse(s: Seq<u8>, pos: int) -> Result<(DigestItemView, int), DecodeError> {
        match DigestItemType::parse(s, pos) {
            Err(e) => Err(e),
            Ok((kind, start)) => Self::parse_payload(kind, s, start),
        }
    }

    /// Where the wire form of an item stands, the parser reads the item.
    pub proof fn lemma_parse_wire(self, s: Seq<u8>, pos: int)
        requires
            self.valid(),
            holds_at(s, pos, self.wire()),
        ensures
            self.wire().len() >= 1,
            Self::parse(s, pos) == Ok::<(DigestItemView, int), DecodeError>(
                (self, pos + self.wire().len()),
            ),
    {
        let kind = self.kind();
        lemma_holds_at_split(s, pos, kind.wire(), self.payload_wire());
        kind.lemma_tag_round_trip();
        kind.lemma_parse_wire(s, pos);
        let start = pos + 1;
        match self {
            DigestItemView::ChangesTrieRoot(root) => {},
            DigestItemView::PreRuntime(id, data) => {
                lemma_holds_at_split(s, start, id, bytes_wire(data));
                lemma_bytes_parse_wire(s, start + 4, data);
            },
            DigestItemView::Consensus(id, data) => {
                lemma_holds_at_split(s, start, id, bytes_wire(data));
                lemma_bytes_parse_wire(s, start + 4, data);
            },
            DigestItemView::Seal(id, data) => {
                lemma_holds_at_split(s, start, id, bytes_wire(data));
                lemma_bytes_parse_wire(s, start + 4, data);
            },
            DigestItemView::ChangesTrieSignal(signal) => {
                signal.lemma_parse_wire(s, start);
            },
            DigestItemView::Other(data) => {
                lemma_bytes_parse_wire(s, start, data);
            },
        }
    }

    /// What the parser read as an item is a valid item's wire form.
    pub proof fn lemma_parse_canonical(s: Seq<u8>, pos: int)
        ensures
            Self::parse(s, pos) matches Ok((item, next)) ==> item.valid() && 0 <= pos < next && next
                <= s.len() && s.subrange(pos, next) == item.wire(),
    {
        DigestItemType::lemma_parse_canonical(s, pos);
        if let Ok((kind, start)) = DigestItemType::parse(s, pos) {
            lemma_engine_parse_canonical(s, start);
            lemma_bytes_parse_canonical(s, start);
            ChangesTrieSignal::lemma_parse_canonical(s, start);
            if let Ok((item, next)) = Self::parse_payload(kind, s, start) {
                lemma_subrange_join(s, pos, start, next);
            }
        }
    }
}

/// Appends an engine's id and its payload to `dest`.
fn encode_engine_payload_to(id: &[u8; 4], data: &Vec<u8>, dest: &mut Vec<u8>)
    ensures
        final(dest)@ == old(dest)@ + (id@ + bytes_wire(data@)),
{
    push_all(dest, id.as_slice());
    encode_bytes_to(data.as_slice(), dest);
}

/// Reads an engine's id and its payload at `pos`.
fn decode_engine_payload_at(data: &[u8], pos: usize) -> (r: Result<
    (([u8; 4], Vec<u8>), usize),
    DecodeError,
>)
    ensures
        outcome_view(r) == engine_parse(data@, pos as int),
        advanced(r, pos, data@.len()),
{
    let (id, mid) = match decode_engine_id_at(data, pos) {
        Ok(found) => found,
        Err(e) => {
            return Err(e);
        },
    };
    let (payload, next) = match decode_bytes_at(data, mid) {
        Ok(found) => found,
        Err(e) => {
            return Err(e);
        },
    };
    Ok(((id, payload), next))
}

impl<'a> DigestItemRef<'a> {
    /// The wire form.
    pub open spec fn wire(&self) -> Seq<u8> {
        self@.wire()
    }

    /// Appends the wire form to `dest`: the tag of the kind, then the payload.
    pub fn encode_to(&self, dest: &mut Vec<u8>)
        ensures
            final(dest)@ == old(dest)@ + self.wire(),
    {
        match *self {
            DigestItemRef::ChangesTrieRoot(changes_trie_root) => {
                DigestItemType::ChangesTrieRoot.encode_to(dest);
                push_all(dest, changes_trie_root.as_slice());
            },
            DigestItemRef::Consensus(val, data) => {
                DigestItemType::Consensus.encode_to(dest);
                encode_engine_payload_to(val, data, dest);
            },
            DigestItemRef::Seal(val, sig) => {
                DigestItemType::Seal.encode_to(dest);
                encode_engine_payload_to(val, sig, dest);
            },
            DigestItemRef::PreRuntime(val, data) => {
                DigestItemType::PreRuntime.encode_to(dest);
                encode_engine_payload_to(val, data, dest);
            },
            DigestItemRef::ChangesTrieSignal(changes_trie_signal) => {
                DigestItemType::ChangesTrieSignal.encode_to(dest);
                changes_trie_signal.encode_to(dest);
            },
            DigestItemRef::Other(val) => {
                DigestItemType::Other.encode_to(dest);
                encode_bytes_to(val.as_slice(), dest);
            },
        }
    }

    /// The wire form.
    pub fn encode(&self) -> (v: Vec<u8>)
        ensures
            v@ == self.wire(),
    {
        let mut v: Vec<u8> = Vec::new();
        self.encode_to(&mut v);
        v
    }
}

impl DigestItem {
    /// The wire form.
    pub open spec fn wire(&self) -> Seq<u8> {
        self@.wire()
    }

    /// A borrowing item with the same content.
    pub fn dref<'a>(&'a self) -> (r: DigestItemRef<'a>)
        ensures
            r@ == self@,
    {
        match self {
            DigestItem::ChangesTrieRoot(v) => DigestItemRef::ChangesTrieRoot(v),
            DigestItem::PreRuntime(v, s) => DigestItemRef::PreRuntime(v, s),
            DigestItem::Consensus(v, s) => DigestItemRef::Consensus(v, s),
            DigestItem::Seal(v, s) => DigestItemRef::Seal(v, s),
            DigestItem::ChangesTrieSignal(s) => DigestItemRef::ChangesTrieSignal(s),
            DigestItem::Other(v) => DigestItemRef::Other(v),
        }
    }

    /// Appends the wire form to `dest`.
    pub fn encode_to(&self, dest: &mut Vec<u8>)
        ensures
            final(dest)@ == old(dest)@ + self.wire(),
    {
        self.dref().encode_to(dest)
    }

    /// The wire form.
    pub fn encode(&self) -> (v: Vec<u8>)
        ensures
            v@ == self.wire(),
    {
        self.dref().encode()
    }

    /// Reads an item at `pos`; gives it with the position after it.
    pub fn decode_at(data: &[u8], pos: usize) -> (r: Result<(DigestItem, usize), DecodeError>)
        ensures
            outcome_view(r) == DigestItemView::parse(data@, pos as int),
            advanced(r, pos, data@.len()),
    {
        let (item_type, start) = match DigestItemType::decode_at(data, pos) {
            Ok(found) => found,
            Err(e) => {
                return Err(e);
            },
        };
        match item_type {
            DigestItemType::ChangesTrieRoot => match decode_hash_at(data, start) {
                Err(e) => Err(e),
                Ok((root, next)) => Ok((DigestItem::ChangesTrieRoot(root), next)),
            },
            DigestItemType::PreRuntime => match decode_engine_payload_at(data, start) {
                Err(e) => Err(e),
                Ok((vals, next)) => Ok((DigestItem::PreRuntime(vals.0, vals.1), next)),
            },
            DigestItemType::Consensus => match decode_engine_payload_at(data, start) {
                Err(e) => Err(e),
                Ok((vals, next)) => Ok((DigestItem::Consensus(vals.0, vals.1), next)),
            },
            DigestItemType::Seal => match decode_engine_payload_at(data, start) {
                Err(e) => Err(e),
                Ok((vals, next)) => Ok((DigestItem::Seal(vals.0, vals.1), next)),
            },
            DigestItemType::ChangesTrieSignal => match ChangesTrieSignal::decode_at(data, start) {
                Err(e) => Err(e),
                Ok((signal, next)) => Ok((DigestItem::ChangesTrieSignal(signal), next)),
            },
            DigestItemType::Other => match decode_bytes_at(data, start) {
                Err(e) => Err(e),
                Ok((other, next)) => Ok((DigestItem::Other(other), next)),
            },
        }
    }

    /// Reads an item at the start of `data`; gives it with the number of bytes
    /// it took.
    pub fn decode(data: &[u8]) -> (r: Result<(DigestItem, usize), DecodeError>)
        ensures
            outcome_view(r) == DigestItemView::parse(data@, 0),
            advanced(r, 0, data@.len()),
    {
        Self::decode_at(data, 0)
    }

    /// The model of an item in memory is valid.
    pub proof fn lemma_valid(self)
        ensures
            self@.valid(),
    {
        match self {
            DigestItem::ChangesTrieRoot(root) => {},
            DigestItem::PreRuntime(id, data) => {
                lemma_vec_fits(data);
            },
            DigestItem::Consensus(id, data) => {
                lemma_vec_fits(data);
            },
            DigestItem::Seal(id, data) => {
                lemma_vec_fits(data);
            },
            DigestItem::ChangesTrieSignal(signal) => {},
            DigestItem::Other(data) => {
                lemma_vec_fits(data);
            },
        }
    }

    /// Decoding the wire form of an item gives the item back and consumes the
    /// whole form.
    pub proof fn lemma_round_trip(self)
        ensures
            DigestItemView::parse(self.wire(), 0) == Ok::<(DigestItemView, int), DecodeError>(
                (self@, self.wire().len() as int),
            ),
    {
        self.lemma_valid();
        lemma_holds_at_start(self.wire());
        self@.lemma_parse_wire(self.wire(), 0);
    }

    /// Items with the same content have the same wire form.
    pub proof fn lemma_encode_deterministic(self, other: DigestItem)
        requires
            self@ == other@,
        ensures
            self.wire() == other.wire(),
    {
    }

    /// A borrowing item and an owning one with the same content have the same
    /// wire form, byte for byte.
    pub proof fn lemma_same_wire_as_ref(self, borrowed: DigestItemRef)
        requires
            borrowed@ == self@,
        ensures
            borrowed.wire() == self.wire(),
    {
    }
}

/// The digest of a header: its items, in order.
#[derive(Debug, PartialEq, Eq, Clone)]
pub struct Digest {
    /// The items of the digest.
    pub logs: Vec<DigestItem>,
}

/// The models of the items of `items`, in order.
pub open spec fn items_view(items: Seq<DigestItem>) -> Seq<DigestItemView> {
    Seq::new(items.len(), |i: int| items[i]@)
}

impl View for Digest {
    type V = Seq<DigestItemView>;

    open spec fn view(&self) -> Seq<DigestItemView> {
        items_view(self.logs@)
    }
}

/// Every item of `items` is valid.
pub open spec fn items_valid(items: Seq<DigestItemView>) -> bool {
    forall|i: int| 0 <= i < items.len() ==> (#[trigger] items[i]).valid()
}

/// The wire forms of `items`, one after the other.
pub open spec fn items_wire(items: Seq<DigestItemView>) -> Seq<u8>
    decreases items.len(),
{
    if items.len() == 0 {
        Seq::empty()
    } else {
        items.first().wire() + items_wire(items.drop_first())
    }
}

/// `count` items, one after the other, from `pos` on.
pub open spec fn items_parse(s: Seq<u8>, pos: int, count: nat) -> Result<
    (Seq<DigestItemView>, int),
    DecodeError,
>
    decreases count,
{
    if count == 0 {
        Ok((Seq::empty(), pos))
    } else {
        match DigestItemView::parse(s, pos) {
            Err(e) => Err(e),
            Ok((item, next)) => prepend(seq![item], items_parse(s, next, (count - 1) as nat)),
        }
    }
}

/// The wire form of a digest: the count of its items in compact form, then
/// each item in turn.
pub open spec fn digest_wire(items: Seq<DigestItemView>) -> Seq<u8> {
    compact_wire(items.len()) + items_wire(items)
}

/// A digest at `pos`. A count that exceeds the bytes left is refused at once:
/// every item takes at least one byte.
pub open spec fn digest_parse(s: Seq<u8>, pos: int) -> Result<
    (Seq<DigestItemView>, int),
    DecodeError,
> {
    match compact_parse(s, pos) {
        Err(e) => Err(e),
        Ok((count, start)) => if count > s.len() - start {
            Err(DecodeError::InvalidLength)
        } else {
            items_parse(s, start, count)
        },
    }
}

/// The wire forms of a list's items take at least one byte for each item.
pub proof fn lemma_items_wire_len(items: Seq<DigestItemView>)
    ensures
        items_wire(items).len() >= items.len(),
    decreases items.len(),
{
    if items.len() > 0 {
        items.first().kind().lemma_tag_round_trip();
        lemma_items_wire_len(items.drop_first());
    }
}

/// The wire form of a list with one more item at its end.
pub proof fn lemma_items_wire_push(items: Seq<DigestItemView>, item: DigestItemView)
    ensures
        items_wire(items.push(item)) == items_wire(items) + item.wire(),
    decreases items.len(),
{
    if items.len() == 0 {
        reveal_with_fuel(items_wire, 2);
    } else {
        assert(items.push(item).drop_first() =~= items.drop_first().push(item));
        lemma_items_wire_push(items.drop_first(), item);
    }
}

/// Where the wire forms of a list's items stand, the parser reads the items.
pub proof fn lemma_items_parse_wire(s: Seq<u8>, pos: int, items: Seq<DigestItemView>)
    requires
        items_valid(items),
        holds_at(s, pos, items_wire(items)),
    ensures
        items_parse(s, pos, items.len()) == Ok::<(Seq<DigestItemView>, int), DecodeError>(
            (items, pos + items_wire(items).len()),
        ),
    decreases items.len(),
{
    if items.len() == 0 {
        assert(items =~= Seq::<DigestItemView>::empty());
    } else {
        let first = items.first();
        let rest = items.drop_first();
        lemma_holds_at_split(s, pos, first.wire(), items_wire(rest));
        first.lemma_parse_wire(s, pos);
        assert(items_valid(rest));
        lemma_items_parse_wire(s, pos + first.wire().len(), rest);
        assert(seq![first] + rest =~= items);
    }
}

/// Where the wire form of a digest stands, the parser reads the digest.
pub proof fn lemma_digest_parse_wire(s: Seq<u8>, pos: int, items: Seq<DigestItemView>)
    requires
        items.len() < 0x1_0000_0000_0000_0000,
        items_valid(items),
        holds_at(s, pos, digest_wire(items)),
    ensures
        digest_wire(items).len() >= 1,
        digest_parse(s, pos) == Ok::<(Seq<DigestItemView>, int), DecodeError>(
            (items, pos + digest_wire(items).len()),
        ),
{
    lemma_holds_at_split(s, pos, compact_wire(items.len()), items_wire(items));
    lemma_compact_wire_len(items.len());
    lemma_compact_parse_wire(s, pos, items.len());
    lemma_items_wire_len(items);
    lemma_items_parse_wire(s, pos + compact_wire(items.len()).len(), items);
}

/// What the parser read as items, one after the other, are the wire forms of
/// valid items, one after the other.
pub proof fn lemma_items_parse_canonical(s: Seq<u8>, pos: int, count: nat)
    requires
        0 <= pos <= s.len(),
    ensures
        items_parse(s, pos, count) matches Ok((items, next)) ==> items.len() == count
            && items_valid(items) && pos <= next <= s.len() && s.subrange(pos, next) == items_wire(
            items,
        ),
    decreases count,
{
    if count > 0 {
        DigestItemView::lemma_parse_canonical(s, pos);
        if let Ok((first, mid)) = DigestItemView::parse(s, pos) {
            lemma_items_parse_canonical(s, mid, (count - 1) as nat);
            if let Ok((rest, next)) = items_parse(s, mid, (count - 1) as nat) {
                let items = seq![first] + rest;
                assert(items.drop_first() =~= rest);
                lemma_subrange_join(s, pos, mid, next);
                assert(items_valid(items));
            }
        }
    }
}

/// What the parser read as a digest is the wire form of a valid digest.
pub proof fn lemma_digest_parse_canonical(s: Seq<u8>, pos: int)
    ensures
        digest_parse(s, pos) matches Ok((items, next)) ==> items.len() < 0x1_0000_0000_0000_0000
            && items_valid(items) && 0 <= pos < next && next <= s.len() && s.subrange(pos, next)
            == digest_wire(items),
{
    lemma_compact_parse_canonical(s, pos);
    if let Ok((count, start)) = compact_parse(s, pos) {
        if count <= s.len() - start {
            lemma_items_parse_canonical(s, start, count);
            if let Ok((items, next)) = items_parse(s, start, count) {
                lemma_subrange_join(s, pos, start, next);
            }
        }
    }
}

impl Digest {
    /// The wire form.
    pub open spec fn wire(&self) -> Seq<u8> {
        digest_wire(self@)
    }

    /// Appends the wire form to `dest`.
    pub fn encode_to(&self, dest: &mut Vec<u8>)
        ensures
            final(dest)@ == old(dest)@ + self.wire(),
    {
        let count: usize = self.logs.len();
        crate::compact::encode_to(count as u64, dest);
        let ghost base = dest@;
        let mut i: usize = 0;
        while i < count
            invariant
                i <= count == self.logs@.len(),
                base == old(dest)@ + compact_wire(count as nat),
                dest@ == base + items_wire(self@.take(i as int)),
            decreases count - i,
        {
            self.logs[i].encode_to(dest);
            proof {
                let done = self@.take(i as int);
                assert(self@.take(i + 1) =~= done.push(self@[i as int]));
                lemma_items_wire_push(done, self@[i as int]);
            }
            i = i + 1;
        }
        assert(self@.take(count as int) =~= self@);
    }

    /// The wire form.
    pub fn encode(&self) -> (out: Vec<u8>)
        ensures
            out@ == self.wire(),
    {
        let mut out: Vec<u8> = Vec::new();
        self.encode_to(&mut out);
        out
    }

    /// Reads a digest at `pos`; gives it with the position after it.
    pub fn decode_at(data: &[u8], pos: usize) -> (r: Result<(Digest, usize), DecodeError>)
        ensures
            outcome_view(r) == digest_parse(data@, pos as int),
            advanced(r, pos, data@.len()),
    {
        let (count, start) = match crate::compact::decode_at(data, pos) {
            Ok(found) => found,
            Err(e) => {
                return Err(e);
            },
        };
        if count > (data.len() - start) as u64 {
            return Err(DecodeError::InvalidLength);
        }
        let count: usize = count as usize;
        let mut logs: Vec<DigestItem> = Vec::new();
        let mut next: usize = start;
        let mut i: usize = 0;
        while i < count
            invariant
                i <= count,
                pos < start <= next <= data@.len(),
                logs@.len() == i,
                digest_parse(data@, pos as int) == items_parse(data@, start as int, count as nat),
                items_parse(data@, start as int, count as nat) == prepend(
                    items_view(logs@),
                    items_parse(data@, next as int, (count - i) as nat),
                ),
            decreases count - i,
        {
            let ghost seen = items_view(logs@);
            match DigestItem::decode_at(data, next) {
                Err(e) => {
                    return Err(e);
                },
                Ok((item, after)) => {
                    logs.push(item);
                    proof {
                        let rest = items_parse(data@, after as int, (count - i - 1) as nat);
                        assert(items_view(logs@) =~= seen.push(item@));
                        assert(prepend(seen, prepend(seq![item@], rest)) == prepend(
                            items_view(logs@),
                            rest,
                        )) by {
                            if let Ok((tail, end)) = rest {
                                assert(seen + (seq![item@] + tail) =~= seen.push(item@) + tail);
                            }
                        }
                    }
                    next = after;
                    i = i + 1;
                },
            }
        }
        Ok((Digest { logs }, next))
    }

    /// Reads a digest at the start of `data`; gives it with the number of
    /// bytes it took.
    pub fn decode(data: &[u8]) -> (r: Result<(Digest, usize), DecodeError>)
        ensures
            outcome_view(r) == digest_parse(data@, 0),
            advanced(r, 0, data@.len()),
    {
        Self::decode_at(data, 0)
    }

    /// The model of a digest in memory is valid.
    pub proof fn lemma_valid(self)
        ensures
            self@.len() < 0x1_0000_0000_0000_0000,
            items_valid(self@),
    {
        lemma_vec_fits(self.logs);
        assert forall|i: int| 0 <= i < self@.len() implies (#[trigger] self@[i]).valid() by {
            self.logs@[i].lemma_valid();
        }
    }

    /// Decoding the wire form of a digest gives the digest back and consumes
    /// the whole form.
    pub proof fn lemma_round_trip(self)
        ensures
            digest_parse(self.wire(), 0) == Ok::<(Seq<DigestItemView>, int), DecodeError>(
                (self@, self.wire().len() as int),
            ),
    {
        self.lemma_valid();
        lemma_holds_at_start(self.wire());
        lemma_digest_parse_wire(self.wire(), 0, self@);
    }
}

/// A stream whose leading compact number is none of the tags 0, 2, 4, 5, 6
/// and 7 is refused as an item, with `InvalidDiscriminant`.
pub proof fn lemma_unknown_tag_refused(s: Seq<u8>, pos: int, tag: nat, next: int)
    requires
        compact_parse(s, pos) == Ok::<(nat, int), DecodeError>((tag, next)),
        !(tag == 0 || tag == 2 || tag == 4 || tag == 5 || tag == 6 || tag == 7),
    ensures
        DigestItemView::parse(s, pos) == Err::<(DigestItemView, int), DecodeError>(
            DecodeError::InvalidDiscriminant,
        ),
{
}

} // verus!
