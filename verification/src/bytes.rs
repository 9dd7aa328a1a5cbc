//! Byte fields: of a fixed size, or behind a compact length.
//!
//! Each field has a wire form, a function from the value to its bytes, and a
//! parser, a function from a stream and a position to the value with the
//! position after it, or to the reason for refusing. The lemmas say that the
//! parser inverts the wire form, and that it accepts nothing else.

use crate::compact::{
    compact_parse, compact_wire, lemma_compact_parse_canonical, lemma_compact_parse_wire,
    lemma_compact_wire_len,
};
use crate::error::{advanced, outcome, outcome_view, DecodeError};
use crate::le::{
    le_bytes, le_value, lemma_le_bytes_len, lemma_le_bytes_of_le_value, lemma_le_value_bound,
    lemma_le_value_of_le_bytes, lemma_radix_values, push_le, read_le,
};
use vstd::prelude::*;

verus! {

/// The bytes `w` stand in `s` at `pos`.
pub open spec fn holds_at(s: Seq<u8>, pos: int, w: Seq<u8>) -> bool {
    &&& 0 <= pos
    &&& pos + w.len() <= s.len()
    &&& s.subrange(pos, pos + w.len()) == w
}

/// A field of `n` raw bytes at `pos`.
pub open spec fn fixed_parse(s: Seq<u8>, pos: int, n: nat) -> Result<(Seq<u8>, int), DecodeError> {
    if 0 <= pos && pos + n <= s.len() {
        Ok((s.subrange(pos, pos + n), pos + n))
    } else {
        Err(DecodeError::Truncated)
    }
}

/// A 32-bit number in four little-endian bytes.
pub open spec fn u32_wire(v: u32) -> Seq<u8> {
    le_bytes(v as nat, 4)
}

/// A 32-bit number in four little-endian bytes at `pos`.
pub open spec fn u32_parse(s: Seq<u8>, pos: int) -> Result<(u32, int), DecodeError> {
    if 0 <= pos && pos + 4 <= s.len() {
        Ok((le_value(s.subrange(pos, pos + 4)) as u32, pos + 4))
    } else {
        Err(DecodeError::Truncated)
    }
}

/// A byte string: its length in compact form, then its bytes.
pub open spec fn bytes_wire(b: Seq<u8>) -> Seq<u8> {
    compact_wire(b.len()) + b
}

/// A byte string at `pos`: a compact length, then that many bytes. A length
/// that exceeds the bytes left is refused.
pub open spec fn bytes_parse(s: Seq<u8>, pos: int) -> Result<(Seq<u8>, int), DecodeError> {
    match compact_parse(s, pos) {
        Err(e) => Err(e),
        Ok((len, start)) => if len > s.len() - start {
            Err(DecodeError::InvalidLength)
        } else {
            Ok((s.subrange(start, start + len), start + len))
        },
    }
}

/// The forms of the byte strings of `blobs`, one after the other.
pub open spec fn blobs_wire(blobs: Seq<Seq<u8>>) -> Seq<u8>
    decreases blobs.len(),
{
    if blobs.len() == 0 {
        Seq::empty()
    } else {
        bytes_wire(blobs.first()) + blobs_wire(blobs.drop_first())
    }
}

/// The outcome `r` of reading the rest of a list, with the items `head` that
/// were read before put in front.
pub open spec fn prepend<T>(head: Seq<T>, r: Result<(Seq<T>, int), DecodeError>) -> Result<
    (Seq<T>, int),
    DecodeError,
> {
    match r {
        Ok((rest, next)) => Ok((head + rest, next)),
        Err(e) => Err(e),
    }
}

/// `count` byte strings, one after the other, from `pos` on.
pub open spec fn blobs_parse(s: Seq<u8>, pos: int, count: nat) -> Result<
    (Seq<Seq<u8>>, int),
    DecodeError,
>
    decreases count,
{
    if count == 0 {
        Ok((Seq::empty(), pos))
    } else {
        match bytes_parse(s, pos) {
            Err(e) => Err(e),
            Ok((b, next)) => prepend(seq![b], blobs_parse(s, next, (count - 1) as nat)),
        }
    }
}

/// A list of byte strings: their count in compact form, then each in turn.
pub open spec fn blob_list_wire(blobs: Seq<Seq<u8>>) -> Seq<u8> {
    compact_wire(blobs.len()) + blobs_wire(blobs)
}

/// A list of byte strings at `pos`. A count that exceeds the bytes left is
/// refused at once: every string takes at least one byte.
pub open spec fn blob_list_parse(s: Seq<u8>, pos: int) -> Result<(Seq<Seq<u8>>, int), DecodeError> {
    match compact_parse(s, pos) {
        Err(e) => Err(e),
        Ok((count, start)) => if count > s.len() - start {
            Err(DecodeError::InvalidLength)
        } else {
            blobs_parse(s, start, count)
        },
    }
}

/// Every string of `blobs` is short enough for its length to have a compact form.
pub open spec fn blobs_fit(blobs: Seq<Seq<u8>>) -> bool {
    forall|i: int| 0 <= i < blobs.len() ==> (#[trigger] blobs[i]).len() < 0x1_0000_0000_0000_0000
}

/// Where two strings stand one after the other, each stands at its place.
pub proof fn lemma_holds_at_split(s: Seq<u8>, pos: int, a: Seq<u8>, b: Seq<u8>)
    requires
        holds_at(s, pos, a + b),
    ensures
        holds_at(s, pos, a),
        holds_at(s, pos + a.len(), b),
{
    let w = a + b;
    let whole = s.subrange(pos, pos + w.len());
    assert(s.subrange(pos, pos + a.len()) =~= a);
    assert forall|i: int| 0 <= i < b.len() implies s[pos + a.len() + i] == b[i] by {
        assert(whole[a.len() + i] == w[a.len() + i]);
    }
    assert(s.subrange(pos + a.len(), pos + a.len() + b.len()) =~= b);
}

/// A string stands at the start of itself.
pub proof fn lemma_holds_at_start(w: Seq<u8>)
    ensures
        holds_at(w, 0, w),
{
    assert(w.subrange(0, w.len() as int) =~= w);
}

/// A stretch of a stream is the stretch up to a point in it, then the rest.
pub proof fn lemma_subrange_join(s: Seq<u8>, from: int, mid: int, to: int)
    requires
        0 <= from <= mid <= to <= s.len(),
    ensures
        s.subrange(from, to) == s.subrange(from, mid) + s.subrange(mid, to),
{
}

/// A vector in memory is short enough for its length to have a compact form.
pub proof fn lemma_vec_fits<T>(v: Vec<T>)
    ensures
        v@.len() < 0x1_0000_0000_0000_0000,
{
    assert(v.len() == v@.len());
}

/// Where four little-endian bytes of `v` stand, the parser reads `v`.
pub proof fn lemma_u32_parse_wire(s: Seq<u8>, pos: int, v: u32)
    requires
        holds_at(s, pos, u32_wire(v)),
    ensures
        u32_wire(v).len() == 4,
        u32_parse(s, pos) == Ok::<(u32, int), DecodeError>((v, pos + 4)),
{
    lemma_le_bytes_len(v as nat, 4);
    lemma_radix_values();
    lemma_le_value_of_le_bytes(v as nat, 4);
}

/// What the parser read as a 32-bit number is the number's wire form.
pub proof fn lemma_u32_parse_canonical(s: Seq<u8>, pos: int)
    ensures
        u32_parse(s, pos) matches Ok((v, next)) ==> 0 <= pos && next == pos + 4 && next <= s.len()
            && s.subrange(pos, next) == u32_wire(v),
{
    if 0 <= pos && pos + 4 <= s.len() {
        let read = s.subrange(pos, pos + 4);
        lemma_le_value_bound(read);
        lemma_radix_values();
        lemma_le_bytes_of_le_value(read);
    }
}

/// The form of a byte string is never empty.
pub proof fn lemma_bytes_wire_len(b: Seq<u8>)
    ensures
        bytes_wire(b).len() == compact_wire(b.len()).len() + b.len(),
        bytes_wire(b).len() >= 1,
{
    lemma_compact_wire_len(b.len());
}

/// Where the form of a byte string stands, the parser reads the string.
pub proof fn lemma_bytes_parse_wire(s: Seq<u8>, pos: int, b: Seq<u8>)
    requires
        b.len() < 0x1_0000_0000_0000_0000,
        holds_at(s, pos, bytes_wire(b)),
    ensures
        bytes_parse(s, pos) == Ok::<(Seq<u8>, int), DecodeError>(
            (b, pos + bytes_wire(b).len()),
        ),
{
    lemma_holds_at_split(s, pos, compact_wire(b.len()), b);
    lemma_compact_parse_wire(s, pos, b.len());
}

/// What the parser read as a byte string is the string's wire form.
pub proof fn lemma_bytes_parse_canonical(s: Seq<u8>, pos: int)
    ensures
        bytes_parse(s, pos) matches Ok((b, next)) ==> b.len() < 0x1_0000_0000_0000_0000 && 0 <= pos
            < next && next <= s.len() && s.subrange(pos, next) == bytes_wire(b),
{
    lemma_compact_parse_canonical(s, pos);
    if let Ok((len, start)) = compact_parse(s, pos) {
        if len <= s.len() - start {
            lemma_subrange_join(s, pos, start, start + len);
        }
    }
}

/// The forms of a list's strings take at least one byte for each string.
pub proof fn lemma_blobs_wire_len(blobs: Seq<Seq<u8>>)
    ensures
        blobs_wire(blobs).len() >= blobs.len(),
    decreases blobs.len(),
{
    if blobs.len() > 0 {
        lemma_bytes_wire_len(blobs.first());
        lemma_blobs_wire_len(blobs.drop_first());
    }
}

/// The form of a list with one more string at its end.
pub proof fn lemma_blobs_wire_push(blobs: Seq<Seq<u8>>, b: Seq<u8>)
    ensures
        blobs_wire(blobs.push(b)) == blobs_wire(blobs) + bytes_wire(b),
    decreases blobs.len(),
{
    if blobs.len() == 0 {
        reveal_with_fuel(blobs_wire, 2);
    } else {
        assert(blobs.push(b).drop_first() =~= blobs.drop_first().push(b));
        lemma_blobs_wire_push(blobs.drop_first(), b);
    }
}

/// Where the forms of a list's strings stand, the parser reads the strings.
pub proof fn lemma_blobs_parse_wire(s: Seq<u8>, pos: int, blobs: Seq<Seq<u8>>)
    requires
        blobs_fit(blobs),
        holds_at(s, pos, blobs_wire(blobs)),
    ensures
        blobs_parse(s, pos, blobs.len()) == Ok::<(Seq<Seq<u8>>, int), DecodeError>(
            (blobs, pos + blobs_wire(blobs).len()),
        ),
    decreases blobs.len(),
{
    if blobs.len() == 0 {
        assert(blobs =~= Seq::<Seq<u8>>::empty());
    } else {
        let first = blobs.first();
        let rest = blobs.drop_first();
        lemma_holds_at_split(s, pos, bytes_wire(first), blobs_wire(rest));
        lemma_bytes_parse_wire(s, pos, first);
        assert(blobs_fit(rest));
        lemma_blobs_parse_wire(s, pos + bytes_wire(first).len(), rest);
        assert(seq![first] + rest =~= blobs);
    }
}

/// What the parser read as byte strings, one after the other, are their wire
/// forms, one after the other.
pub proof fn lemma_blobs_parse_canonical(s: Seq<u8>, pos: int, count: nat)
    requires
        0 <= pos <= s.len(),
    ensures
        blobs_parse(s, pos, count) matches Ok((blobs, next)) ==> blobs.len() == count && blobs_fit(
            blobs,
        ) && pos <= next <= s.len() && s.subrange(pos, next) == blobs_wire(blobs),
    decreases count,
{
    if count > 0 {
        lemma_bytes_parse_canonical(s, pos);
        if let Ok((first, mid)) = bytes_parse(s, pos) {
            lemma_blobs_parse_canonical(s, mid, (count - 1) as nat);
            if let Ok((rest, next)) = blobs_parse(s, mid, (count - 1) as nat) {
                let blobs = seq![first] + rest;
                assert(blobs.drop_first() =~= rest);
                lemma_subrange_join(s, pos, mid, next);
                assert(blobs_fit(blobs));
            }
        }
    }
}

/// Where the form of a list of byte strings stands, the parser reads the list.
pub proof fn lemma_blob_list_parse_wire(s: Seq<u8>, pos: int, blobs: Seq<Seq<u8>>)
    requires
        blobs.len() < 0x1_0000_0000_0000_0000,
        blobs_fit(blobs),
        holds_at(s, pos, blob_list_wire(blobs)),
    ensures
        blob_list_parse(s, pos) == Ok::<(Seq<Seq<u8>>, int), DecodeError>(
            (blobs, pos + blob_list_wire(blobs).len()),
        ),
{
    lemma_holds_at_split(s, pos, compact_wire(blobs.len()), blobs_wire(blobs));
    lemma_compact_parse_wire(s, pos, blobs.len());
    lemma_blobs_wire_len(blobs);
    lemma_blobs_parse_wire(s, pos + compact_wire(blobs.len()).len(), blobs);
}

/// What the parser read as a list of byte strings is the list's wire form.
pub proof fn lemma_blob_list_parse_canonical(s: Seq<u8>, pos: int)
    ensures
        blob_list_parse(s, pos) matches Ok((blobs, next)) ==> blobs.len()
            < 0x1_0000_0000_0000_0000 && blobs_fit(blobs) && 0 <= pos < next && next <= s.len()
            && s.subrange(pos, next) == blob_list_wire(blobs),
{
    lemma_compact_parse_canonical(s, pos);
    if let Ok((count, start)) = compact_parse(s, pos) {
        if count <= s.len() - start {
            lemma_blobs_parse_canonical(s, start, count);
            if let Ok((blobs, next)) = blobs_parse(s, start, count) {
                lemma_subrange_join(s, pos, start, next);
            }
        }
    }
}

/// Appends the bytes of `src` to `dest`.
pub fn push_all(dest: &mut Vec<u8>, src: &[u8])
    ensures
        final(dest)@ == old(dest)@ + src@,
{
    dest.extend_from_slice(src);
}

/// Appends a byte string: its length in compact form, then its bytes.
pub fn encode_bytes_to(b: &[u8], dest: &mut Vec<u8>)
    ensures
        final(dest)@ == old(dest)@ + bytes_wire(b@),
{
    crate::compact::encode_to(b.len() as u64, dest);
    push_all(dest, b);
}

/// Appends a 32-bit number as four little-endian bytes.
pub fn encode_u32_to(v: u32, dest: &mut Vec<u8>)
    ensures
        final(dest)@ == old(dest)@ + u32_wire(v),
{
    push_le(dest, v as u64, 4);
}

/// Reads a 32-bit number from four little-endian bytes at `pos`.
pub fn decode_u32_at(data: &[u8], pos: usize) -> (r: Result<(u32, usize), DecodeError>)
    ensures
        outcome(r) == u32_parse(data@, pos as int),
        advanced(r, pos, data@.len()),
{
    if pos > data.len() || data.len() - pos < 4 {
        return Err(DecodeError::Truncated);
    }
    let v: u64 = read_le(data, pos, 4);
    proof {
        lemma_le_value_bound(data@.subrange(pos as int, pos + 4));
        lemma_radix_values();
    }
    Ok((v as u32, pos + 4))
}

/// Reads a field of 32 raw bytes at `pos`.
pub fn decode_hash_at(data: &[u8], pos: usize) -> (r: Result<([u8; 32], usize), DecodeError>)
    ensures
        outcome_view(r) == fixed_parse(data@, pos as int, 32),
        advanced(r, pos, data@.len()),
{
    let len: usize = data.len();
    if pos > len || len - pos < 32 {
        return Err(DecodeError::Truncated);
    }
    let mut out: [u8; 32] = [0u8; 32];
    let mut i: usize = 0;
    while i < 32
        invariant
            i <= 32,
            pos + 32 <= len == data@.len(),
            forall|j: int| 0 <= j < i ==> out@[j] == data@[pos + j],
        decreases 32 - i,
    {
        out[i] = data[pos + i];
        i = i + 1;
    }
    assert(out@ =~= data@.subrange(pos as int, pos + 32));
    Ok((out, pos + 32))
}

/// Reads a field of 4 raw bytes at `pos`.
pub fn decode_engine_id_at(data: &[u8], pos: usize) -> (r: Result<([u8; 4], usize), DecodeError>)
    ensures
        outcome_view(r) == fixed_parse(data@, pos as int, 4),
        advanced(r, pos, data@.len()),
{
    if pos > data.len() || data.len() - pos < 4 {
        return Err(DecodeError::Truncated);
    }
    let out: [u8; 4] = [data[pos], data[pos + 1], data[pos + 2], data[pos + 3]];
    assert(out@ =~= data@.subrange(pos as int, pos + 4));
    Ok((out, pos + 4))
}

/// Reads a byte string at `pos`: a compact length, then that many bytes.
pub fn decode_bytes_at(data: &[u8], pos: usize) -> (r: Result<(Vec<u8>, usize), DecodeError>)
    ensures
        outcome_view(r) == bytes_parse(data@, pos as int),
        advanced(r, pos, data@.len()),
{
    let (len, start) = match crate::compact::decode_at(data, pos) {
        Ok(found) => found,
        Err(e) => {
            return Err(e);
        },
    };
    if len > (data.len() - start) as u64 {
        return Err(DecodeError::InvalidLength);
    }
    let end: usize = start + len as usize;
    let mut out: Vec<u8> = Vec::new();
    push_all(&mut out, vstd::slice::slice_subrange(data, start, end));
    Ok((out, end))
}

} // verus!
