//! Canonical binary form and identity of blocks.
//!
//! A block is a header followed by its extrinsics. The header carries the
//! block's number, three 256-bit values and a digest: an ordered log of tagged
//! items that a consensus engine attaches to it. Every type here has one wire
//! form, stated as a function from the value to its bytes, and a decoder that is
//! proved to invert it and to accept nothing but that form. The hash of a
//! block is the 256-bit BLAKE2b digest of its header's wire form.
//!
//! The modules, from the leaves up: `le` and `compact` for numbers, `bytes`
//! for byte fields and lists of them, `changes_trie` and `digest` for what a
//! header carries, `hash` for the hash primitive, `header`, `block` and
//! `storage_proof` for the values that travel.

pub mod block;
pub mod bytes;
pub mod changes_trie;
pub mod compact;
pub mod digest;
pub mod error;
pub mod hash;
pub mod header;
pub mod le;
pub mod storage_proof;

pub use crate::block::{Block, Extrinsic};
pub use crate::changes_trie::{ChangesTrieConfiguration, ChangesTrieSignal};
pub use crate::digest::{Digest, DigestItem, DigestItemRef, DigestItemType};
pub use crate::error::DecodeError;
pub use crate::header::{BlockHash, Header};
pub use crate::storage_proof::StorageProof;
