//! Unsigned integers as little-endian byte strings of a chosen width.

use vstd::prelude::*;

verus! {

/// 256 to the power `n`.
pub open spec fn radix(n: nat) -> nat
    decreases n,
{
    if n == 0 {
        1
    } else {
        256 * radix((n - 1) as nat)
    }
}

/// The `n` low bytes of `v`, least significant first.
pub open spec fn le_bytes(v: nat, n: nat) -> Seq<u8>
    decreases n,
{
    if n == 0 {
        Seq::empty()
    } else {
        seq![(v % 256) as u8] + le_bytes(v / 256, (n - 1) as nat)
    }
}

/// The number that `s` spells, least significant byte first.
pub open spec fn le_value(s: Seq<u8>) -> nat
    decreases s.len(),
{
    if s.len() == 0 {
        0
    } else {
        s[0] as nat + 256 * le_value(s.drop_first())
    }
}

/// The powers of 256 that fit the widths in use.
pub proof fn lemma_radix_values()
    ensures
        radix(0) == 1,
        radix(1) == 0x100,
        radix(2) == 0x1_0000,
        radix(3) == 0x100_0000,
        radix(4) == 0x1_0000_0000,
        radix(5) == 0x100_0000_0000,
        radix(6) == 0x1_0000_0000_0000,
        radix(7) == 0x100_0000_0000_0000,
        radix(8) == 0x1_0000_0000_0000_0000,
{
    reveal_with_fuel(radix, 10);
}

/// `radix` grows with its argument.
pub proof fn lemma_radix_monotonic(a: nat, b: nat)
    requires
        a <= b,
    ensures
        0 < radix(a) <= radix(b),
    decreases b,
{
    if a < b {
        lemma_radix_monotonic(a, (b - 1) as nat);
    } else if 0 < b {
        lemma_radix_monotonic((a - 1) as nat, (b - 1) as nat);
    }
}

/// `le_bytes` yields exactly the width asked for.
pub proof fn lemma_le_bytes_len(v: nat, n: nat)
    ensures
        le_bytes(v, n).len() == n,
    decreases n,
{
    if n > 0 {
        lemma_le_bytes_len(v / 256, (n - 1) as nat);
    }
}

/// A string of `n` bytes spells a number below `radix(n)`.
pub proof fn lemma_le_value_bound(s: Seq<u8>)
    ensures
        le_value(s) < radix(s.len()),
    decreases s.len(),
{
    if s.len() > 0 {
        lemma_le_value_bound(s.drop_first());
    }
}

/// Reading back what `le_bytes` wrote gives the number, when the width holds it.
pub proof fn lemma_le_value_of_le_bytes(v: nat, n: nat)
    requires
        v < radix(n),
    ensures
        le_value(le_bytes(v, n)) == v,
    decreases n,
{
    if n > 0 {
        let rest = le_bytes(v / 256, (n - 1) as nat);
        let s = le_bytes(v, n);
        lemma_le_bytes_len(v / 256, (n - 1) as nat);
        assert(s.drop_first() =~= rest);
        lemma_le_value_of_le_bytes(v / 256, (n - 1) as nat);
    }
}

/// Writing the number that a string spells, at the string's width, gives the string.
pub proof fn lemma_le_bytes_of_le_value(s: Seq<u8>)
    ensures
        le_bytes(le_value(s), s.len()) == s,
    decreases s.len(),
{
    if s.len() > 0 {
        lemma_le_bytes_of_le_value(s.drop_first());
    }
}

/// Appends the `n` low bytes of `v` to `dest`, least significant first.
pub(crate) fn push_le(dest: &mut Vec<u8>, v: u64, n: usize)
    ensures
        final(dest)@ == old(dest)@ + le_bytes(v as nat, n as nat),
{
    let mut rest: u64 = v;
    let mut i: usize = 0;
    while i < n
        invariant
            i <= n,
            dest@ + le_bytes(rest as nat, (n - i) as nat) == old(dest)@ + le_bytes(
                v as nat,
                n as nat,
            ),
        decreases n - i,
    {
        dest.push((rest % 256) as u8);
        rest = rest / 256;
        i = i + 1;
    }
}

/// Reads the `n` bytes of `data` at `pos` as a little-endian number.
pub(crate) fn read_le(data: &[u8], pos: usize, n: usize) -> (v: u64)
    requires
        n <= 8,
        pos + n <= data@.len(),
    ensures
        v as nat == le_value(data@.subrange(pos as int, pos + n)),
{
    let len: usize = data.len();
    let mut acc: u64 = 0;
    let mut i: usize = n;
    while i > 0
        invariant
            i <= n <= 8,
            pos + n <= len == data@.len(),
            acc as nat == le_value(data@.subrange(pos + i, pos + n)),
        decreases i,
    {
        i = i - 1;
        proof {
            let high = data@.subrange(pos + i + 1, pos + n);
            let all = data@.subrange(pos + i, pos + n);
            assert(all.drop_first() =~= high);
            lemma_le_value_bound(high);
            lemma_radix_monotonic(high.len(), 7);
            lemma_radix_values();
        }
        acc = acc * 256 + data[pos + i] as u64;
    }
    acc
}

} // verus!
