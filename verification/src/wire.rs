//! Fixed-width little-endian integers, the base layer of the binary format.

use vstd::prelude::*;

verus! {

/// 256 to the power `w`: the number of values that `w` bytes can hold.
pub open spec fn radix(w: nat) -> nat
    decreases w,
{
    if w == 0 {
        1
    } else {
        256 * radix((w - 1) as nat)
    }
}

/// The `w` low-order bytes of `x`, least significant first.
pub open spec fn le_bytes(x: nat, w: nat) -> Seq<u8>
    decreases w,
{
    if w == 0 {
        Seq::empty()
    } else {
        seq![(x % 256) as u8] + le_bytes(x / 256, (w - 1) as nat)
    }
}

/// The number spelled by the `w` bytes of `bytes` that start at `pos`,
/// least significant first.
pub open spec fn le_value(bytes: Seq<u8>, pos: int, w: nat) -> nat
    decreases w,
{
    if w == 0 {
        0
    } else {
        bytes[pos] as nat + 256 * le_value(bytes, pos + 1, (w - 1) as nat)
    }
}

/// `part` stands in `bytes` at `pos`.
pub open spec fn holds_at(bytes: Seq<u8>, pos: int, part: Seq<u8>) -> bool {
    &&& 0 <= pos
    &&& pos + part.len() <= bytes.len()
    &&& bytes.subrange(pos, pos + part.len()) == part
}

/// The powers of 256 that the format uses.
pub proof fn lemma_radix_values()
    ensures
        radix(0) == 1,
        radix(1) == 0x100,
        radix(2) == 0x1_0000,
        radix(3) == 0x100_0000,
        radix(4) == 0x1_0000_0000,
        radix(5) == 0x100_0000_0000,
        radix(6) == 0x1_0000_0000_0000,
        radix(7) == 0x100_0000_0000_0000,
        radix(8) == 0x1_0000_0000_0000_0000,
{
    reveal_with_fuel(radix, 10);
}

pub proof fn lemma_le_bytes_len(x: nat, w: nat)
    ensures
        le_bytes(x, w).len() == w,
    decreases w,
{
    if w > 0 {
        lemma_le_bytes_len(x / 256, (w - 1) as nat);
    }
}

pub proof fn lemma_le_value_bound(bytes: Seq<u8>, pos: int, w: nat)
    ensures
        le_value(bytes, pos, w) < radix(w),
    decreases w,
{
    if w > 0 {
        lemma_le_value_bound(bytes, pos + 1, (w - 1) as nat);
    }
}

/// A part standing at `pos` splits into its head and its tail.
pub proof fn lemma_holds_at_split(bytes: Seq<u8>, pos: int, a: Seq<u8>, b: Seq<u8>)
    requires
        holds_at(bytes, pos, a + b),
    ensures
        holds_at(bytes, pos, a),
        holds_at(bytes, pos + a.len(), b),
{
    assert(bytes.subrange(pos, pos + a.len()) =~= (a + b).subrange(0, a.len() as int));
    assert((a + b).subrange(0, a.len() as int) =~= a);
    assert(bytes.subrange(pos + a.len(), pos + a.len() + b.len()) =~= (a + b).subrange(
        a.len() as int,
        (a.len() + b.len()) as int,
    ));
    assert((a + b).subrange(a.len() as int, (a.len() + b.len()) as int) =~= b);
}

/// Reading back what `le_bytes` wrote gives the number, if it fits the width.
pub proof fn lemma_le_round_trip(bytes: Seq<u8>, pos: int, x: nat, w: nat)
    requires
        x < radix(w),
        holds_at(bytes, pos, le_bytes(x, w)),
    ensures
        le_value(bytes, pos, w) == x,
    decreases w,
{
    if w > 0 {
        let head = seq![(x % 256) as u8];
        let tail = le_bytes(x / 256, (w - 1) as nat);
        lemma_holds_at_split(bytes, pos, head, tail);
        assert(bytes[pos] == bytes.subrange(pos, pos + 1)[0]);
        assert(bytes[pos] == (x % 256) as u8);
        lemma_le_round_trip(bytes, pos + 1, x / 256, (w - 1) as nat);
    }
}

/// Appends the `w` low-order bytes of `x` to `out`, least significant first.
pub fn put_le(out: &mut Vec<u8>, x: u64, w: usize)
    requires
        w <= 8,
    ensures
        final(out)@ == old(out)@ + le_bytes(x as nat, w as nat),
{
    let ghost start = out@;
    let mut rest: u64 = x;
    let mut i: usize = 0;
    while i < w
        invariant
            i <= w,
            out@ + le_bytes(rest as nat, (w - i) as nat) == start + le_bytes(x as nat, w as nat),
        decreases w - i,
    {
        let ghost before = out@;
        out.push((rest % 256) as u8);
        proof {
            let tail = le_bytes((rest / 256) as nat, (w - i - 1) as nat);
            assert(before + (seq![(rest % 256) as u8] + tail) =~= out@ + tail);
        }
        rest = rest / 256;
        i += 1;
    }
    assert(out@ + Seq::<u8>::empty() =~= out@);
}

/// Reads the `w` bytes at `pos` as a number, least significant first.
pub fn get_le(bytes: &[u8], pos: usize, w: usize) -> (r: u64)
    requires
        w <= 8,
        pos + w <= bytes@.len(),
    ensures
        r as nat == le_value(bytes@, pos as int, w as nat),
{
    let total: usize = bytes.len();
    let mut acc: u64 = 0;
    let mut i: usize = w;
    while i > 0
        invariant
            i <= w <= 8,
            pos + w <= total,
            total == bytes@.len(),
            acc as nat == le_value(bytes@, pos + i, (w - i) as nat),
        decreases i,
    {
        i -= 1;
        proof {
            lemma_le_value_bound(bytes@, pos + i + 1, (w - i - 1) as nat);
            lemma_radix_values();
        }
        acc = acc * 256 + bytes[pos + i] as u64;
    }
    acc
}

/// Appends all of `src` to `out`.
pub fn append_bytes(out: &mut Vec<u8>, src: &[u8])
    ensures
        final(out)@ == old(out)@ + src@,
{
    let ghost start = out@;
    let mut i: usize = 0;
    while i < src.len()
        invariant
            i <= src@.len(),
            out@ == start + src@.subrange(0, i as int),
        decreases src@.len() - i,
    {
        out.push(src[i]);
        assert(out@ =~= start + src@.subrange(0, i + 1));
        i += 1;
    }
    assert(src@.subrange(0, src@.len() as int) =~= src@);
}

/// A copy of the bytes of `src` from `from` up to, not including, `to`.
pub fn copy_range(src: &[u8], from: usize, to: usize) -> (r: Vec<u8>)
    requires
        from <= to <= src@.len(),
    ensures
        r@ == src@.subrange(from as int, to as int),
{
    let mut r: Vec<u8> = Vec::new();
    let mut i: usize = from;
    while i < to
        invariant
            from <= i <= to <= src@.len(),
            r@ == src@.subrange(from as int, i as int),
        decreases to - i,
    {
        r.push(src[i]);
        assert(r@ =~= src@.subrange(from as int, i + 1));
        i += 1;
    }
    r
}

} // verus!
