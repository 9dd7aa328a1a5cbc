//! A proof that some entries are in the storage trie.
//!
//! It is the ordered collection of the serialized trie nodes that a lookup of
//! those entries visits. The core gives it a wire form; to rebuild the partial
//! trie from it and to look the entries up is the work of a verifier.

use crate::bytes::{
    blob_list_parse, blob_list_wire, blobs_parse, blobs_wire, decode_bytes_at, encode_bytes_to,
    lemma_blob_list_parse_wire, lemma_blobs_wire_push, lemma_holds_at_start, lemma_vec_fits,
    prepend,
};
use crate::compact::compact_wire;
use crate::error::{advanced, outcome_view, DecodeError};
use vstd::prelude::*;

verus! {

/// The contents of the byte strings of `nodes`, in order.
pub open spec fn nodes_view(nodes: Seq<Vec<u8>>) -> Seq<Seq<u8>> {
    Seq::new(nodes.len(), |i: int| nodes[i]@)
}

/// The serialized trie nodes of a storage proof, in order.
#[derive(Debug, PartialEq, Eq, Clone)]
pub struct StorageProof {
    trie_nodes: Vec<Vec<u8>>,
}

impl View for StorageProof {
    type V = Seq<Seq<u8>>;

    closed spec fn view(&self) -> Seq<Seq<u8>> {
        nodes_view(self.trie_nodes@)
    }
}

impl StorageProof {
    /// A proof made of `trie_nodes`.
    pub fn new(trie_nodes: Vec<Vec<u8>>) -> (proof_of: StorageProof)
        ensures
            proof_of@ == nodes_view(trie_nodes@),
    {
        StorageProof { trie_nodes }
    }

    /// The nodes of the proof.
    pub fn trie_nodes(&self) -> (nodes: &Vec<Vec<u8>>)
        ensures
            nodes_view(nodes@) == self@,
    {
        &self.trie_nodes
    }

    /// The wire form: the list of the nodes, each a byte string.
    pub open spec fn wire(&self) -> Seq<u8> {
        blob_list_wire(self@)
    }

    /// Appends the wire form to `dest`.
    pub fn encode_to(&self, dest: &mut Vec<u8>)
        ensures
            final(dest)@ == old(dest)@ + self.wire(),
    {
        let count: usize = self.trie_nodes.len();
        crate::compact::encode_to(count as u64, dest);
        let ghost base = dest@;
        let ghost list = self@;
        let mut i: usize = 0;
        while i < count
            invariant
                i <= count == self.trie_nodes@.len(),
                list == nodes_view(self.trie_nodes@),
                base == old(dest)@ + compact_wire(count as nat),
                dest@ == base + blobs_wire(list.take(i as int)),
            decreases count - i,
        {
            encode_bytes_to(self.trie_nodes[i].as_slice(), dest);
            proof {
                let done = list.take(i as int);
                assert(list.take(i + 1) =~= done.push(list[i as int]));
                lemma_blobs_wire_push(done, list[i as int]);
            }
            i = i + 1;
        }
        assert(list.take(count as int) =~= list);
    }

    /// The wire form.
    pub fn encode(&self) -> (out: Vec<u8>)
        ensures
            out@ == self.wire(),
    {
        let mut out: Vec<u8> = Vec::new();
        self.encode_to(&mut out);
        out
    }

    /// Reads a proof at `pos`; gives it with the position after it.
    pub fn decode_at(data: &[u8], pos: usize) -> (r: Result<(StorageProof, usize), DecodeError>)
        ensures
            outcome_view(r) == blob_list_parse(data@, pos as int),
            advanced(r, pos, data@.len()),
    {
        let (count, start) = match crate::compact::decode_at(data, pos) {
            Ok(found) => found,
            Err(e) => {
                return Err(e);
            },
        };
        if count > (data.len() - start) as u64 {
            return Err(DecodeError::InvalidLength);
        }
        let count: usize = count as usize;
        let mut trie_nodes: Vec<Vec<u8>> = Vec::new();
        let mut next: usize = start;
        let mut i: usize = 0;
        while i < count
            invariant
                i <= count,
                pos < start <= next <= data@.len(),
                trie_nodes@.len() == i,
                blob_list_parse(data@, pos as int) == blobs_parse(
                    data@,
                    start as int,
                    count as nat,
                ),
                blobs_parse(data@, start as int, count as nat) == prepend(
                    nodes_view(trie_nodes@),
                    blobs_parse(data@, next as int, (count - i) as nat),
                ),
            decreases count - i,
        {
            let ghost seen = nodes_view(trie_nodes@);
            match decode_bytes_at(data, next) {
                Err(e) => {
                    return Err(e);
                },
                Ok((node, after)) => {
                    let ghost bytes = node@;
                    trie_nodes.push(node);
                    proof {
                        let rest = blobs_parse(data@, after as int, (count - i - 1) as nat);
                        assert(nodes_view(trie_nodes@) =~= seen.push(bytes));
                        assert(prepend(seen, prepend(seq![bytes], rest)) == prepend(
                            nodes_view(trie_nodes@),
                            rest,
                        )) by {
                            if let Ok((tail, end)) = rest {
                                assert(seen + (seq![bytes] + tail) =~= seen.push(bytes) + tail);
                            }
                        }
                    }
                    next = after;
                    i = i + 1;
                },
            }
        }
        Ok((StorageProof { trie_nodes }, next))
    }

    /// Reads a proof at the start of `data`; gives it with the number of bytes
    /// it took.
    pub fn decode(data: &[u8]) -> (r: Result<(StorageProof, usize), DecodeError>)
        ensures
            outcome_view(r) == blob_list_parse(data@, 0),
            advanced(r, 0, data@.len()),
    {
        Self::decode_at(data, 0)
    }

    /// Decoding the wire form of a proof gives the proof back and consumes the
    /// whole form.
    pub proof fn lemma_round_trip(self)
        ensures
            blob_list_parse(self.wire(), 0) == Ok::<(Seq<Seq<u8>>, int), DecodeError>(
                (self@, self.wire().len() as int),
            ),
    {
        lemma_vec_fits(self.trie_nodes);
        assert forall|i: int| 0 <= i < self@.len() implies (#[trigger] self@[i]).len()
            < 0x1_0000_0000_0000_0000 by {
            lemma_vec_fits(self.trie_nodes@[i]);
        }
        lemma_holds_at_start(self.wire());
        lemma_blob_list_parse_wire(self.wire(), 0, self@);
    }

    /// Proofs with the same nodes have the same wire form.
    pub proof fn lemma_encode_deterministic(self, other: StorageProof)
        requires
            self@ == other@,
        ensures
            self.wire() == other.wire(),
    {
    }
}

} // verus!
