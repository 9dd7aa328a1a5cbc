//! The compact form of unsigned integers.
//!
//! A number below 2^6 takes one byte, below 2^14 two, below 2^30 four. The two
//! low bits of the first byte tell which; the number sits above them, in
//! little-endian order. A larger number follows a byte that gives its width: four
//! to eight bytes, the fewest that hold it. Each number has one form, and the
//! decoder refuses every other spelling of it.

use crate::error::DecodeError;
use crate::le::{
    le_bytes, le_value, lemma_le_bytes_len, lemma_le_bytes_of_le_value, lemma_le_value_bound,
    lemma_le_value_of_le_bytes, lemma_radix_values, push_le, read_le,
};
use vstd::prelude::*;

verus! {

/// The first number that needs `n` bytes after a width byte.
pub open spec fn big_floor(n: nat) -> nat {
    if n <= 4 {
        0x4000_0000
    } else if n == 5 {
        0x1_0000_0000
    } else if n == 6 {
        0x100_0000_0000
    } else if n == 7 {
        0x1_0000_0000_0000
    } else {
        0x100_0000_0000_0000
    }
}

/// How many bytes follow the width byte of `v`.
pub open spec fn big_width(v: nat) -> nat {
    if v < big_floor(5) {
        4
    } else if v < big_floor(6) {
        5
    } else if v < big_floor(7) {
        6
    } else if v < big_floor(8) {
        7
    } else {
        8
    }
}

/// The compact form of `v`, for `v` below 2^64.
pub open spec fn compact_wire(v: nat) -> Seq<u8> {
    if v < 0x40 {
        le_bytes(4 * v, 1)
    } else if v < 0x4000 {
        le_bytes(4 * v + 1, 2)
    } else if v < 0x4000_0000 {
        le_bytes(4 * v + 2, 4)
    } else {
        seq![(4 * (big_width(v) - 4) + 3) as u8] + le_bytes(v, big_width(v))
    }
}

/// What the decoder makes of `s` from `pos` on: the number and the position
/// after it, or the reason for refusing.
pub open spec fn compact_parse(s: Seq<u8>, pos: int) -> Result<(nat, int), DecodeError> {
    if !(0 <= pos < s.len()) {
        Err(DecodeError::Truncated)
    } else {
        let prefix = s[pos] as nat;
        if prefix % 4 == 0 {
            Ok((prefix / 4, pos + 1))
        } else if prefix % 4 == 1 {
            if pos + 2 > s.len() {
                Err(DecodeError::Truncated)
            } else {
                let v = le_value(s.subrange(pos, pos + 2)) / 4;
                if v < 0x40 {
                    Err(DecodeError::Malformed)
                } else {
                    Ok((v, pos + 2))
                }
            }
        } else if prefix % 4 == 2 {
            if pos + 4 > s.len() {
                Err(DecodeError::Truncated)
            } else {
                let v = le_value(s.subrange(pos, pos + 4)) / 4;
                if v < 0x4000 {
                    Err(DecodeError::Malformed)
                } else {
                    Ok((v, pos + 4))
                }
            }
        } else {
            let n = prefix / 4 + 4;
            if n > 8 {
                Err(DecodeError::Malformed)
            } else if pos + 1 + n > s.len() {
                Err(DecodeError::Truncated)
            } else {
                let v = le_value(s.subrange(pos + 1, pos + 1 + n));
                if v < big_floor(n) {
                    Err(DecodeError::Malformed)
                } else {
                    Ok((v, pos + 1 + n))
                }
            }
        }
    }
}

/// The length of the compact form changes exactly at 2^6, 2^14 and 2^30, and
/// above that with each further byte the number needs.
pub proof fn lemma_compact_wire_len(v: nat)
    ensures
        compact_wire(v).len() == if v < 0x40 {
            1nat
        } else if v < 0x4000 {
            2nat
        } else if v < 0x4000_0000 {
            4nat
        } else {
            1 + big_width(v)
        },
        compact_wire(0).len() == 1,
        compact_wire(v).len() == 1 <==> v < 0x40,
        compact_wire(v).len() == 2 <==> 0x40 <= v < 0x4000,
        compact_wire(v).len() == 4 <==> 0x4000 <= v < 0x4000_0000,
        compact_wire(v).len() >= 5 <==> 0x4000_0000 <= v,
{
    lemma_le_bytes_len(0, 1);
    lemma_le_bytes_len(4 * v, 1);
    lemma_le_bytes_len(4 * v + 1, 2);
    lemma_le_bytes_len(4 * v + 2, 4);
    lemma_le_bytes_len(v, big_width(v));
}

/// Wherever the compact form of `v` stands in a stream, the parser reads `v`
/// there and stops right after it.
pub proof fn lemma_compact_parse_wire(s: Seq<u8>, pos: int, v: nat)
    requires
        v < 0x1_0000_0000_0000_0000,
        0 <= pos,
        pos + compact_wire(v).len() <= s.len(),
        s.subrange(pos, pos + compact_wire(v).len()) == compact_wire(v),
    ensures
        compact_parse(s, pos) == Ok::<(nat, int), DecodeError>((v, pos + compact_wire(v).len())),
{
    let w = compact_wire(v);
    lemma_compact_wire_len(v);
    lemma_radix_values();
    assert(s[pos] == s.subrange(pos, pos + w.len())[0]);
    if v < 0x40 {
        reveal_with_fuel(le_bytes, 2);
    } else if v < 0x4000 {
        reveal_with_fuel(le_bytes, 3);
        lemma_le_value_of_le_bytes(4 * v + 1, 2);
    } else if v < 0x4000_0000 {
        reveal_with_fuel(le_bytes, 5);
        lemma_le_value_of_le_bytes(4 * v + 2, 4);
    } else {
        let n = big_width(v);
        let body = le_bytes(v, n);
        lemma_le_bytes_len(v, n);
        assert(s.subrange(pos + 1, pos + 1 + n) =~= body) by {
            assert forall|i: int| 0 <= i < n implies s.subrange(pos + 1, pos + 1 + n)[i]
                == body[i] by {
                assert(s.subrange(pos, pos + w.len())[i + 1] == w[i + 1]);
            }
        }
        lemma_le_value_of_le_bytes(v, n);
    }
}

/// The decoder accepts a number in its compact form only: what it read, from
/// `pos` to where it stopped, is what the encoder writes for that number.
pub proof fn lemma_compact_parse_canonical(s: Seq<u8>, pos: int)
    ensures
        compact_parse(s, pos) matches Ok((v, next)) ==> v < 0x1_0000_0000_0000_0000 && pos < next
            <= s.len() && s.subrange(pos, next) == compact_wire(v),
{
    lemma_radix_values();
    if 0 <= pos < s.len() {
        let prefix = s[pos] as nat;
        if prefix % 4 == 0 {
            reveal_with_fuel(le_bytes, 2);
        } else if prefix % 4 == 1 && pos + 2 <= s.len() {
            let read = s.subrange(pos, pos + 2);
            reveal_with_fuel(le_value, 3);
            lemma_le_value_bound(read);
            lemma_le_bytes_of_le_value(read);
        } else if prefix % 4 == 2 && pos + 4 <= s.len() {
            let read = s.subrange(pos, pos + 4);
            reveal_with_fuel(le_value, 5);
            lemma_le_value_bound(read);
            lemma_le_bytes_of_le_value(read);
        } else if prefix % 4 == 3 && prefix / 4 + 4 <= 8 && pos + 1 + prefix / 4 + 4 <= s.len() {
            let n = prefix / 4 + 4;
            let read = s.subrange(pos + 1, pos + 1 + n);
            lemma_le_value_bound(read);
            lemma_le_bytes_of_le_value(read);
        }
    }
}

/// Decoding the compact form of a number gives the number back and consumes
/// the whole form.
pub proof fn lemma_compact_round_trip(v: u64)
    ensures
        compact_parse(compact_wire(v as nat), 0) == Ok::<(nat, int), DecodeError>(
            (v as nat, compact_wire(v as nat).len() as int),
        ),
{
    let w = compact_wire(v as nat);
    assert(w.subrange(0, w.len() as int) =~= w);
    lemma_compact_parse_wire(w, 0, v as nat);
}

/// How many bytes follow the width byte of `v`.
fn width_of(v: u64) -> (n: usize)
    ensures
        n as nat == big_width(v as nat),
{
    if v < 0x1_0000_0000 {
        4
    } else if v < 0x100_0000_0000 {
        5
    } else if v < 0x1_0000_0000_0000 {
        6
    } else if v < 0x100_0000_0000_0000 {
        7
    } else {
        8
    }
}

/// The first number that needs `n` bytes after a width byte.
fn floor_of(n: usize) -> (v: u64)
    ensures
        v as nat == big_floor(n as nat),
{
    if n <= 4 {
        0x4000_0000
    } else if n == 5 {
        0x1_0000_0000
    } else if n == 6 {
        0x100_0000_0000
    } else if n == 7 {
        0x1_0000_0000_0000
    } else {
        0x100_0000_0000_0000
    }
}

/// Appends the compact form of `v` to `dest`.
pub fn encode_to(v: u64, dest: &mut Vec<u8>)
    ensures
        final(dest)@ == old(dest)@ + compact_wire(v as nat),
{
    if v < 0x40 {
        push_le(dest, 4 * v, 1);
    } else if v < 0x4000 {
        push_le(dest, 4 * v + 1, 2);
    } else if v < 0x4000_0000 {
        push_le(dest, 4 * v + 2, 4);
    } else {
        let n: usize = width_of(v);
        let head: u8 = (4 * (n - 4) + 3) as u8;
        dest.push(head);
        push_le(dest, v, n);
    }
}

/// The compact form of `v`.
pub fn encode(v: u64) -> (out: Vec<u8>)
    ensures
        out@ == compact_wire(v as nat),
{
    let mut out: Vec<u8> = Vec::new();
    encode_to(v, &mut out);
    out
}

/// Reads a compact number from `data` at `pos`; gives it with the position after it.
pub fn decode_at(data: &[u8], pos: usize) -> (r: Result<(u64, usize), DecodeError>)
    ensures
        match r {
            Ok((v, next)) => compact_parse(data@, pos as int) == Ok::<(nat, int), DecodeError>(
                (v as nat, next as int),
            ) && pos < next <= data@.len(),
            Err(e) => compact_parse(data@, pos as int) == Err::<(nat, int), DecodeError>(e),
        },
{
    let len: usize = data.len();
    if pos >= len {
        return Err(DecodeError::Truncated);
    }
    let prefix: u8 = data[pos];
    let mode: u8 = prefix % 4;
    if mode == 0 {
        Ok(((prefix / 4) as u64, pos + 1))
    } else if mode == 1 {
        if len - pos < 2 {
            Err(DecodeError::Truncated)
        } else {
            let v: u64 = read_le(data, pos, 2) / 4;
            if v < 0x40 {
                Err(DecodeError::Malformed)
            } else {
                Ok((v, pos + 2))
            }
        }
    } else if mode == 2 {
        if len - pos < 4 {
            Err(DecodeError::Truncated)
        } else {
            let v: u64 = read_le(data, pos, 4) / 4;
            if v < 0x4000 {
                Err(DecodeError::Malformed)
            } else {
                Ok((v, pos + 4))
            }
        }
    } else {
        let n: usize = (prefix / 4) as usize + 4;
        if n > 8 {
            Err(DecodeError::Malformed)
        } else if len - pos - 1 < n {
            Err(DecodeError::Truncated)
        } else {
            let v: u64 = read_le(data, pos + 1, n);
            if v < floor_of(n) {
                Err(DecodeError::Malformed)
            } else {
                Ok((v, pos + 1 + n))
            }
        }
    }
}

/// Reads a compact number from the start of `data`; gives it with the number
/// of bytes it took.
pub fn decode(data: &[u8]) -> (r: Result<(u64, usize), DecodeError>)
    ensures
        match r {
            Ok((v, used)) => compact_parse(data@, 0) == Ok::<(nat, int), DecodeError>(
                (v as nat, used as int),
            ) && 0 < used <= data@.len(),
            Err(e) => compact_parse(data@, 0) == Err::<(nat, int), DecodeError>(e),
        },
{
    decode_at(data, 0)
}

} // verus!
