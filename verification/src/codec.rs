//! Little-endian byte-field reading and writing.
//!
//! Every on-disk structure handled by this crate stores its multi-byte
//! integer fields in little-endian order. `le_val` gives the mathematical
//! value of such a byte string and `le_bytes_of` its encoding; the exec
//! readers and writers are proved against those two definitions.

use vstd::arithmetic::div_mod::{
    lemma_div_multiples_vanish_fancy, lemma_mod_multiples_vanish, lemma_small_mod,
};
use vstd::prelude::*;

verus! {

/// Value of a little-endian byte string: the first byte is the least
/// significant.
pub open spec fn le_val(s: Seq<u8>) -> nat
    decreases s.len(),
{
    if s.len() == 0 {
        0
    } else {
        s[0] as nat + 256 * le_val(s.subrange(1, s.len() as int))
    }
}

/// The `n`-byte little-endian encoding of `v` (of `v % 256^n` when `v` does
/// not fit).
pub open spec fn le_bytes_of(v: nat, n: nat) -> Seq<u8>
    decreases n,
{
    if n == 0 {
        Seq::empty()
    } else {
        seq![(v % 256) as u8] + le_bytes_of(v / 256, (n - 1) as nat)
    }
}

/// 256 to the `n`th power: the number of values an `n`-byte field can hold.
pub open spec fn pow256(n: nat) -> nat
    decreases n,
{
    if n == 0 {
        1
    } else {
        256 * pow256((n - 1) as nat)
    }
}

/// An `n`-byte field holds values below `256^n`.
pub proof fn lemma_le_val_bound(s: Seq<u8>)
    ensures
        le_val(s) < pow256(s.len()),
    decreases s.len(),
{
    if s.len() > 0 {
        lemma_le_val_bound(s.subrange(1, s.len() as int));
    }
}

/// Encoding the value of a byte string over its own length gives the byte
/// string back.
pub proof fn lemma_le_roundtrip(s: Seq<u8>)
    ensures
        le_bytes_of(le_val(s), s.len()) == s,
    decreases s.len(),
{
    if s.len() > 0 {
        let tail = s.subrange(1, s.len() as int);
        let t = le_val(tail);
        lemma_mod_multiples_vanish(t as int, s[0] as int, 256);
        lemma_small_mod(s[0] as nat, 256);
        lemma_div_multiples_vanish_fancy(t as int, s[0] as int, 256);
        lemma_le_roundtrip(tail);
        assert(le_bytes_of(le_val(s), s.len()) =~= s);
    } else {
        assert(le_bytes_of(le_val(s), s.len()) =~= s);
    }
}

/// Decoding an encoded value gives the value back, as long as it fits.
pub proof fn lemma_le_bytes_of_val(v: nat, n: nat)
    requires
        v < pow256(n),
    ensures
        le_bytes_of(v, n).len() == n,
        le_val(le_bytes_of(v, n)) == v,
    decreases n,
{
    if n > 0 {
        lemma_mod_multiples_vanish((v / 256) as int, (v % 256) as int, 256);
        lemma_div_multiples_vanish_fancy((v / 256) as int, (v % 256) as int, 256);
        lemma_le_bytes_of_val(v / 256, (n - 1) as nat);
        assert(le_bytes_of(v, n).subrange(1, n as int) =~= le_bytes_of(v / 256, (n - 1) as nat));
    }
}

/// A two-byte field spelt out: low byte first.
pub proof fn lemma_le_val_2(s: Seq<u8>)
    requires
        s.len() == 2,
    ensures
        le_val(s) == s[0] as nat + 256 * (s[1] as nat),
{
    reveal_with_fuel(le_val, 3);
    assert(s.subrange(1, 2)[0] == s[1]);
    assert(s.subrange(1, 2).subrange(1, 1) =~= Seq::<u8>::empty());
}

/// Every power of 256 is positive.
pub proof fn lemma_pow256_pos(n: nat)
    ensures
        pow256(n) >= 1,
    decreases n,
{
    if n > 0 {
        lemma_pow256_pos((n - 1) as nat);
    }
}

/// `pow256` never shrinks as the width grows.
pub proof fn lemma_pow256_increases(m: nat, n: nat)
    requires
        m <= n,
    ensures
        pow256(m) <= pow256(n),
    decreases n,
{
    if m < n {
        lemma_pow256_increases(m, (n - 1) as nat);
        lemma_pow256_pos((n - 1) as nat);
    }
}

/// The concrete field sizes this crate reads.
pub proof fn lemma_pow256_values()
    ensures
        pow256(2) == 0x1_0000,
        pow256(3) == 0x100_0000,
        pow256(4) == 0x1_0000_0000,
        pow256(8) == 0x1_0000_0000_0000_0000,
{
    reveal_with_fuel(pow256, 9);
}

/// Reads the `width`-byte little-endian unsigned integer stored at `off`.
/// The caller guarantees that the window lies inside the slice.
pub fn read_le(data: &[u8], off: usize, width: usize) -> (r: u64)
    requires
        width <= 8,
        off + width <= data@.len(),
    ensures
        r as nat == le_val(data@.subrange(off as int, off + width)),
{
    let dlen: usize = data.len();
    let mut acc: u64 = 0;
    let mut i: usize = width;
    proof {
        assert(data@.subrange(off + width, off + width) =~= Seq::<u8>::empty());
    }
    while i > 0
        invariant
            i <= width,
            width <= 8,
            off + width <= data@.len(),
            off + width <= usize::MAX,
            acc as nat == le_val(data@.subrange(off + i, off + width)),
        decreases i,
    {
        proof {
            let s = data@.subrange(off + i - 1, off + width);
            assert(s.subrange(1, s.len() as int) =~= data@.subrange(off + i, off + width));
            lemma_le_val_bound(s);
            lemma_le_val_bound(data@.subrange(off + i, off + width));
            lemma_pow256_increases((width - i) as nat, 7);
            lemma_pow256_values();
            assert(pow256(7) * 256 == pow256(8));
        }
        let b = data[off + i - 1];
        acc = b as u64 + 256 * acc;
        i = i - 1;
    }
    proof {
        assert(data@.subrange(off as int, off + width) =~= data@.subrange(off + i, off + width));
    }
    acc
}

/// Reads the little-endian 16-bit field at `off`.
pub fn read_u16_at(data: &[u8], off: usize) -> (r: u16)
    requires
        off + 2 <= data@.len(),
    ensures
        r as nat == le_val(data@.subrange(off as int, off + 2)),
{
    proof {
        lemma_le_val_bound(data@.subrange(off as int, off + 2));
        lemma_pow256_values();
    }
    read_le(data, off, 2) as u16
}

/// Reads the little-endian 24-bit field at `off` into a `u32`.
pub fn read_u24_at(data: &[u8], off: usize) -> (r: u32)
    requires
        off + 3 <= data@.len(),
    ensures
        r as nat == le_val(data@.subrange(off as int, off + 3)),
{
    proof {
        lemma_le_val_bound(data@.subrange(off as int, off + 3));
        lemma_pow256_values();
    }
    read_le(data, off, 3) as u32
}

/// Reads the little-endian 32-bit field at `off`.
pub fn read_u32_at(data: &[u8], off: usize) -> (r: u32)
    requires
        off + 4 <= data@.len(),
    ensures
        r as nat == le_val(data@.subrange(off as int, off + 4)),
{
    proof {
        lemma_le_val_bound(data@.subrange(off as int, off + 4));
        lemma_pow256_values();
    }
    read_le(data, off, 4) as u32
}

/// Reads the little-endian 64-bit field at `off`.
pub fn read_u64_at(data: &[u8], off: usize) -> (r: u64)
    requires
        off + 8 <= data@.len(),
    ensures
        r as nat == le_val(data@.subrange(off as int, off + 8)),
{
    read_le(data, off, 8)
}

/// Appends the `width`-byte little-endian encoding of `v` to `out`.
pub fn write_le(out: &mut Vec<u8>, v: u64, width: usize)
    ensures
        final(out)@ == old(out)@ + le_bytes_of(v as nat, width as nat),
{
    let mut cur: u64 = v;
    let mut k: usize = 0;
    while k < width
        invariant
            k <= width,
            old(out)@ + le_bytes_of(v as nat, width as nat) == out@ + le_bytes_of(
                cur as nat,
                (width - k) as nat,
            ),
        decreases width - k,
    {
        out.push((cur % 256) as u8);
        cur = cur / 256;
        k = k + 1;
        proof {
            assert(old(out)@ + le_bytes_of(v as nat, width as nat) =~= out@ + le_bytes_of(
                cur as nat,
                (width - k) as nat,
            ));
        }
    }
    proof {
        assert(le_bytes_of(cur as nat, 0) =~= Seq::<u8>::empty());
        assert(old(out)@ + le_bytes_of(v as nat, width as nat) =~= out@);
    }
}

} // verus!
