//! What the changes-trie manager tells the client through a digest.
//!
//! The core does not interpret these values; it carries them and gives them a
//! wire form.

use crate::bytes::{
    decode_u32_at, encode_u32_to, holds_at, lemma_holds_at_split, lemma_subrange_join,
    lemma_u32_parse_canonical, lemma_u32_parse_wire, u32_parse, u32_wire,
};
use crate::error::{advanced, outcome, DecodeError};
use vstd::prelude::*;

verus! {

/// How changes tries are built.
#[derive(Debug, Clone, PartialEq, Eq)]
pub struct ChangesTrieConfiguration {
    /// The interval, in blocks, at which level-1 digests are made. None are
    /// made when it is 1 or less.
    pub digest_interval: u32,
    /// The greatest number of digest levels. With 0 no digest is made at all.
    pub digest_levels: u32,
}

/// A signal of the changes-trie manager.
#[derive(Debug, Clone, PartialEq, Eq)]
pub enum ChangesTrieSignal {
    /// A new configuration, or none, holds from the next block on.
    NewConfiguration(Option<ChangesTrieConfiguration>),
}

impl Default for ChangesTrieConfiguration {
    fn default() -> (c: ChangesTrieConfiguration)
        ensures
            c.digest_interval == 0,
            c.digest_levels == 0,
    {
        ChangesTrieConfiguration { digest_interval: 0, digest_levels: 0 }
    }
}

impl ChangesTrieConfiguration {
    /// The wire form: the two fields, four little-endian bytes each.
    pub open spec fn wire(self) -> Seq<u8> {
        u32_wire(self.digest_interval) + u32_wire(self.digest_levels)
    }

    /// A configuration at `pos`.
    pub open spec fn parse(s: Seq<u8>, pos: int) -> Result<
        (ChangesTrieConfiguration, int),
        DecodeError,
    > {
        match u32_parse(s, pos) {
            Err(e) => Err(e),
            Ok((digest_interval, mid)) => match u32_parse(s, mid) {
                Err(e) => Err(e),
                Ok((digest_levels, next)) => Ok(
                    (ChangesTrieConfiguration { digest_interval, digest_levels }, next),
                ),
            },
        }
    }

    /// Appends the wire form to `dest`.
    pub fn encode_to(&self, dest: &mut Vec<u8>)
        ensures
            final(dest)@ == old(dest)@ + self.wire(),
    {
        encode_u32_to(self.digest_interval, dest);
        encode_u32_to(self.digest_levels, dest);
    }

    /// The wire form.
    pub fn encode(&self) -> (out: Vec<u8>)
        ensures
            out@ == self.wire(),
    {
        let mut out: Vec<u8> = Vec::new();
        self.encode_to(&mut out);
        out
    }

    /// Reads a configuration at `pos`; gives it with the position after it.
    pub fn decode_at(data: &[u8], pos: usize) -> (r: Result<
        (ChangesTrieConfiguration, usize),
        DecodeError,
    >)
        ensures
            outcome(r) == Self::parse(data@, pos as int),
            advanced(r, pos, data@.len()),
    {
        let (digest_interval, mid) = match decode_u32_at(data, pos) {
            Ok(found) => found,
            Err(e) => {
                return Err(e);
            },
        };
        let (digest_levels, next) = match decode_u32_at(data, mid) {
            Ok(found) => found,
            Err(e) => {
                return Err(e);
            },
        };
        Ok((ChangesTrieConfiguration { digest_interval, digest_levels }, next))
    }

    /// Reads a configuration at the start of `data`; gives it with the number
    /// of bytes it took.
    pub fn decode(data: &[u8]) -> (r: Result<(ChangesTrieConfiguration, usize), DecodeError>)
        ensures
            outcome(r) == Self::parse(data@, 0),
            advanced(r, 0, data@.len()),
    {
        Self::decode_at(data, 0)
    }

    /// Where the wire form of a configuration stands, the parser reads the
    /// configuration.
    pub proof fn lemma_parse_wire(self, s: Seq<u8>, pos: int)
        requires
            holds_at(s, pos, self.wire()),
        ensures
            self.wire().len() == 8,
            Self::parse(s, pos) == Ok::<(ChangesTrieConfiguration, int), DecodeError>(
                (self, pos + 8),
            ),
    {
        lemma_holds_at_split(s, pos, u32_wire(self.digest_interval), u32_wire(self.digest_levels));
        lemma_u32_parse_wire(s, pos, self.digest_interval);
        lemma_u32_parse_wire(s, pos + 4, self.digest_levels);
    }

    /// What the parser read as a configuration is the configuration's wire
    /// form.
    pub proof fn lemma_parse_canonical(s: Seq<u8>, pos: int)
        ensures
            Self::parse(s, pos) matches Ok((config, next)) ==> 0 <= pos && next == pos + 8 && next
                <= s.len() && s.subrange(pos, next) == config.wire(),
    {
        lemma_u32_parse_canonical(s, pos);
        lemma_u32_parse_canonical(s, pos + 4);
        if Self::parse(s, pos) is Ok {
            lemma_subrange_join(s, pos, pos + 4, pos + 8);
        }
    }
}

impl ChangesTrieSignal {
    /// The wire form: a presence flag, then the configuration if there is one.
    pub open spec fn wire(self) -> Seq<u8> {
        match self {
            ChangesTrieSignal::NewConfiguration(None) => seq![0u8],
            ChangesTrieSignal::NewConfiguration(Some(config)) => seq![1u8] + config.wire(),
        }
    }

    /// A signal at `pos`.
    pub open spec fn parse(s: Seq<u8>, pos: int) -> Result<(ChangesTrieSignal, int), DecodeError> {
        if !(0 <= pos < s.len()) {
            Err(DecodeError::Truncated)
        } else if s[pos] == 0 {
            Ok((ChangesTrieSignal::NewConfiguration(None), pos + 1))
        } else if s[pos] == 1 {
            match ChangesTrieConfiguration::parse(s, pos + 1) {
                Err(e) => Err(e),
                Ok((config, next)) => Ok((ChangesTrieSignal::NewConfiguration(Some(config)), next)),
            }
        } else {
            Err(DecodeError::InvalidDiscriminant)
        }
    }

    /// Appends the wire form to `dest`.
    pub fn encode_to(&self, dest: &mut Vec<u8>)
        ensures
            final(dest)@ == old(dest)@ + self.wire(),
    {
        match self {
            ChangesTrieSignal::NewConfiguration(None) => {
                dest.push(0);
            },
            ChangesTrieSignal::NewConfiguration(Some(config)) => {
                dest.push(1);
                config.encode_to(dest);
            },
        }
    }

    /// The wire form.
    pub fn encode(&self) -> (out: Vec<u8>)
        ensures
            out@ == self.wire(),
    {
        let mut out: Vec<u8> = Vec::new();
        self.encode_to(&mut out);
        out
    }

    /// Reads a signal at `pos`; gives it with the position after it.
    pub fn decode_at(data: &[u8], pos: usize) -> (r: Result<
        (ChangesTrieSignal, usize),
        DecodeError,
    >)
        ensures
            outcome(r) == Self::parse(data@, pos as int),
            advanced(r, pos, data@.len()),
    {
        if pos >= data.len() {
            return Err(DecodeError::Truncated);
        }
        let flag: u8 = data[pos];
        if flag == 0 {
            Ok((ChangesTrieSignal::NewConfiguration(None), pos + 1))
        } else if flag == 1 {
            match ChangesTrieConfiguration::decode_at(data, pos + 1) {
                Err(e) => Err(e),
                Ok((config, next)) => Ok((ChangesTrieSignal::NewConfiguration(Some(config)), next)),
            }
        } else {
            Err(DecodeError::InvalidDiscriminant)
        }
    }

    /// Reads a signal at the start of `data`; gives it with the number of
    /// bytes it took.
    pub fn decode(data: &[u8]) -> (r: Result<(ChangesTrieSignal, usize), DecodeError>)
        ensures
            outcome(r) == Self::parse(data@, 0),
            advanced(r, 0, data@.len()),
    {
        Self::decode_at(data, 0)
    }

    /// Where the wire form of a signal stands, the parser reads the signal.
    pub proof fn lemma_parse_wire(self, s: Seq<u8>, pos: int)
        requires
            holds_at(s, pos, self.wire()),
        ensures
            self.wire().len() >= 1,
            Self::parse(s, pos) == Ok::<(ChangesTrieSignal, int), DecodeError>(
                (self, pos + self.wire().len()),
            ),
    {
        assert(s[pos] == s.subrange(pos, pos + self.wire().len())[0]);
        match self {
            ChangesTrieSignal::NewConfiguration(None) => {},
            ChangesTrieSignal::NewConfiguration(Some(config)) => {
                lemma_holds_at_split(s, pos, seq![1u8], config.wire());
                config.lemma_parse_wire(s, pos + 1);
            },
        }
    }

    /// What the parser read as a signal is the signal's wire form.
    pub proof fn lemma_parse_canonical(s: Seq<u8>, pos: int)
        ensures
            Self::parse(s, pos) matches Ok((signal, next)) ==> 0 <= pos < next && next <= s.len()
                && s.subrange(pos, next) == signal.wire(),
    {
        if 0 <= pos < s.len() && s[pos] == 1 {
            ChangesTrieConfiguration::lemma_parse_canonical(s, pos + 1);
            if let Ok((config, next)) = ChangesTrieConfiguration::parse(s, pos + 1) {
                lemma_subrange_join(s, pos, pos + 1, next);
            }
        }
    }
}

} // verus!
