//! The GUID codec.
//!
//! A GUID occupies 16 bytes on disk in a mixed-endian layout: the first
//! three fields are little-endian integers of 4, 2 and 2 bytes, the final 8
//! bytes are an opaque byte string kept in disk order. This module isolates
//! that layout in one place; `lemma_guid_round_trip` states that decoding
//! and re-encoding reproduce the wire bytes exactly.

use crate::codec::{
    le_bytes_of, le_val, lemma_le_bytes_of_val, lemma_le_roundtrip, lemma_pow256_values, read_u16_at,
    read_u32_at, write_le,
};
use crate::text::{hex_str, lemma_hex_str_split, push_hex};
use vstd::arithmetic::div_mod::{
    lemma_div_multiples_vanish_fancy, lemma_mod_multiples_vanish, lemma_small_mod,
};
use vstd::prelude::*;
use vstd::string::StringExecFns;

verus! {

/// A decoded GUID. `d1`, `d2` and `d3` hold the three little-endian fields;
/// `d4` holds the trailing eight bytes in disk order.
#[derive(Clone, Copy, Debug, PartialEq, Eq)]
pub struct Guid {
    pub d1: u32,
    pub d2: u16,
    pub d3: u16,
    pub d4: [u8; 8],
}

/// `g` is the decoding of the 16-byte wire form `s`.
pub open spec fn guid_matches(g: Guid, s: Seq<u8>) -> bool {
    &&& s.len() == 16
    &&& g.d1 as nat == le_val(s.subrange(0, 4))
    &&& g.d2 as nat == le_val(s.subrange(4, 6))
    &&& g.d3 as nat == le_val(s.subrange(6, 8))
    &&& g.d4@ == s.subrange(8, 16)
}

/// The 16-byte wire form of `g`.
pub open spec fn guid_le_bytes(g: Guid) -> Seq<u8> {
    le_bytes_of(g.d1 as nat, 4) + le_bytes_of(g.d2 as nat, 2) + le_bytes_of(g.d3 as nat, 2)
        + g.d4@
}

/// Re-encoding a decoded GUID reproduces the wire bytes exactly.
pub proof fn lemma_guid_round_trip(g: Guid, s: Seq<u8>)
    requires
        guid_matches(g, s),
    ensures
        guid_le_bytes(g) == s,
{
    lemma_le_roundtrip(s.subrange(0, 4));
    lemma_le_roundtrip(s.subrange(4, 6));
    lemma_le_roundtrip(s.subrange(6, 8));
    assert(guid_le_bytes(g) =~= s);
}

/// Encoding a GUID and decoding the bytes gives the GUID back.
pub proof fn lemma_guid_encode_then_decode(g: Guid)
    ensures
        guid_matches(g, guid_le_bytes(g)),
{
    lemma_pow256_values();
    lemma_le_bytes_of_val(g.d1 as nat, 4);
    lemma_le_bytes_of_val(g.d2 as nat, 2);
    lemma_le_bytes_of_val(g.d3 as nat, 2);
    let s = guid_le_bytes(g);
    assert(s.subrange(0, 4) =~= le_bytes_of(g.d1 as nat, 4));
    assert(s.subrange(4, 6) =~= le_bytes_of(g.d2 as nat, 2));
    assert(s.subrange(6, 8) =~= le_bytes_of(g.d3 as nat, 2));
    assert(s.subrange(8, 16) =~= g.d4@);
}

impl Guid {
    /// All sixteen bytes of the wire form are zero.
    pub open spec fn spec_is_nil(self) -> bool {
        &&& self.d1 == 0
        &&& self.d2 == 0
        &&& self.d3 == 0
        &&& forall|i: int| 0 <= i < 8 ==> self.d4@[i] == 0
    }

    /// Decodes the mixed-endian 16-byte wire form.
    pub fn from_le_bytes(bytes: &[u8]) -> (g: Guid)
        requires
            bytes@.len() == 16,
        ensures
            guid_matches(g, bytes@),
    {
        let g = Guid {
            d1: read_u32_at(bytes, 0),
            d2: read_u16_at(bytes, 4),
            d3: read_u16_at(bytes, 6),
            d4: [
                bytes[8],
                bytes[9],
                bytes[10],
                bytes[11],
                bytes[12],
                bytes[13],
                bytes[14],
                bytes[15],
            ],
        };
        proof {
            assert(g.d4@ =~= bytes@.subrange(8, 16));
        }
        g
    }

    /// Re-encodes the GUID into its 16-byte wire form.
    pub fn to_le_bytes(&self) -> (r: Vec<u8>)
        ensures
            r@ == guid_le_bytes(*self),
    {
        let mut out: Vec<u8> = Vec::new();
        write_le(&mut out, self.d1 as u64, 4);
        write_le(&mut out, self.d2 as u64, 2);
        write_le(&mut out, self.d3 as u64, 2);
        let ghost prefix = out@;
        let mut k: usize = 0;
        while k < 8
            invariant
                k <= 8,
                out@ == prefix + self.d4@.subrange(0, k as int),
            decreases 8 - k,
        {
            out.push(self.d4[k]);
            k = k + 1;
            proof {
                assert(out@ =~= prefix + self.d4@.subrange(0, k as int));
            }
        }
        proof {
            assert(self.d4@.subrange(0, 8) =~= self.d4@);
            assert(out@ =~= guid_le_bytes(*self));
        }
        out
    }

    /// True exactly when every byte of the wire form is zero: the marker of
    /// a vacant partition slot.
    pub fn is_nil(&self) -> (r: bool)
        ensures
            r == self.spec_is_nil(),
    {
        let tail_zero = self.d4[0] == 0 && self.d4[1] == 0 && self.d4[2] == 0 && self.d4[3] == 0
            && self.d4[4] == 0 && self.d4[5] == 0 && self.d4[6] == 0 && self.d4[7] == 0;
        proof {
            if tail_zero {
                assert forall|i: int| 0 <= i < 8 implies self.d4@[i] == 0 by {
                    if i == 0 {
                    } else if i == 1 {
                    } else if i == 2 {
                    } else if i == 3 {
                    } else if i == 4 {
                    } else if i == 5 {
                    } else if i == 6 {
                    } else {
                        assert(i == 7);
                    }
                }
            }
        }
        self.d1 == 0 && self.d2 == 0 && self.d3 == 0 && tail_zero
    }
}

/// The canonical textual form of a GUID: the three little-endian fields
/// rendered big-endian, then the trailing bytes in disk order, as
/// `xxxxxxxx-xxxx-xxxx-xxxx-xxxxxxxxxxxx` in lower-case hexadecimal.
pub open spec fn guid_str(g: Guid) -> Seq<char> {
    hex_str(g.d1 as nat, 8) + seq!['-'] + hex_str(g.d2 as nat, 4) + seq!['-'] + hex_str(
        g.d3 as nat,
        4,
    ) + seq!['-'] + hex_str(g.d4@[0] as nat, 2) + hex_str(g.d4@[1] as nat, 2) + seq!['-']
        + hex_str(g.d4@[2] as nat, 2) + hex_str(g.d4@[3] as nat, 2) + hex_str(g.d4@[4] as nat, 2)
        + hex_str(g.d4@[5] as nat, 2) + hex_str(g.d4@[6] as nat, 2) + hex_str(g.d4@[7] as nat, 2)
}

impl Guid {
    /// Renders the GUID in its canonical textual form.
    pub fn format(&self) -> (r: String)
        ensures
            r@ == guid_str(*self),
    {
        let mut s = String::new();
        push_hex(&mut s, self.d1 as u64, 8);
        append_dash(&mut s);
        push_hex(&mut s, self.d2 as u64, 4);
        append_dash(&mut s);
        push_hex(&mut s, self.d3 as u64, 4);
        append_dash(&mut s);
        push_hex(&mut s, self.d4[0] as u64, 2);
        push_hex(&mut s, self.d4[1] as u64, 2);
        append_dash(&mut s);
        push_hex(&mut s, self.d4[2] as u64, 2);
        push_hex(&mut s, self.d4[3] as u64, 2);
        push_hex(&mut s, self.d4[4] as u64, 2);
        push_hex(&mut s, self.d4[5] as u64, 2);
        push_hex(&mut s, self.d4[6] as u64, 2);
        push_hex(&mut s, self.d4[7] as u64, 2);
        proof {
            assert(s@ =~= guid_str(*self));
        }
        s
    }
}

/// Appends the group separator.
fn append_dash(s: &mut String)
    ensures
        final(s)@ == old(s)@ + seq!['-'],
{
    proof {
        reveal_strlit("-");
    }
    s.append("-");
    proof {
        assert(final(s)@ =~= old(s)@ + seq!['-']);
    }
}

/// The big-endian reordering of a mixed-endian GUID: the first three fields
/// byte-swapped, the trailing eight bytes unchanged.
pub open spec fn mixed_to_be(s: Seq<u8>) -> Seq<u8> {
    seq![s[3], s[2], s[1], s[0], s[5], s[4], s[7], s[6]] + s.subrange(8, 16)
}

/// Reorders a 16-byte mixed-endian GUID to big-endian in place.
pub fn convert_mixed_endian(guid: &mut Vec<u8>)
    requires
        old(guid)@.len() == 16,
    ensures
        final(guid)@ == mixed_to_be(old(guid)@),
{
    let mut out: Vec<u8> = Vec::new();
    out.push(guid[3]);
    out.push(guid[2]);
    out.push(guid[1]);
    out.push(guid[0]);
    out.push(guid[5]);
    out.push(guid[4]);
    out.push(guid[7]);
    out.push(guid[6]);
    let mut k: usize = 8;
    while k < 16
        invariant
            8 <= k <= 16,
            old(guid)@.len() == 16,
            guid@ == old(guid)@,
            out@ == mixed_to_be(old(guid)@).subrange(0, k as int),
        decreases 16 - k,
    {
        out.push(guid[k]);
        k = k + 1;
        proof {
            assert(out@ =~= mixed_to_be(old(guid)@).subrange(0, k as int));
        }
    }
    proof {
        assert(mixed_to_be(old(guid)@).subrange(0, 16) =~= mixed_to_be(old(guid)@));
    }
    *guid = out;
}

/// The textual form of a GUID already held as 16 big-endian bytes: two
/// hexadecimal digits per byte, with separators after bytes 3, 5, 7 and 9.
pub open spec fn be_guid_str(s: Seq<u8>) -> Seq<char> {
    hex_str(s[0] as nat, 2) + hex_str(s[1] as nat, 2) + hex_str(s[2] as nat, 2) + hex_str(
        s[3] as nat,
        2,
    ) + seq!['-'] + hex_str(s[4] as nat, 2) + hex_str(s[5] as nat, 2) + seq!['-'] + hex_str(
        s[6] as nat,
        2,
    ) + hex_str(s[7] as nat, 2) + seq!['-'] + hex_str(s[8] as nat, 2) + hex_str(s[9] as nat, 2)
        + seq!['-'] + hex_str(s[10] as nat, 2) + hex_str(s[11] as nat, 2) + hex_str(
        s[12] as nat,
        2,
    ) + hex_str(s[13] as nat, 2) + hex_str(s[14] as nat, 2) + hex_str(s[15] as nat, 2)
}

/// A one-byte field renders as the two digits of its byte.
proof fn lemma_hex_le_1(s: Seq<u8>)
    requires
        s.len() == 1,
    ensures
        hex_str(le_val(s), 2) == hex_str(s[0] as nat, 2),
{
    assert(s.subrange(1, 1) =~= Seq::<u8>::empty());
    assert(le_val(s.subrange(1, 1)) == 0);
    assert(le_val(s) == s[0] as nat);
}

/// Splits the low byte off the rendering of a little-endian field: the
/// remaining bytes render first, the low byte's two digits last.
proof fn lemma_hex_le_step(s: Seq<u8>)
    requires
        s.len() >= 1,
    ensures
        hex_str(le_val(s), 2 * s.len()) == hex_str(
            le_val(s.subrange(1, s.len() as int)),
            (2 * s.len() - 2) as nat,
        ) + hex_str(s[0] as nat, 2),
{
    let t = le_val(s.subrange(1, s.len() as int));
    lemma_mod_multiples_vanish(t as int, s[0] as int, 256);
    lemma_small_mod(s[0] as nat, 256);
    lemma_div_multiples_vanish_fancy(t as int, s[0] as int, 256);
    lemma_hex_str_split(le_val(s), 2 * s.len());
}

/// A two-byte little-endian field renders as its bytes' digit pairs, high
/// byte first.
proof fn lemma_hex_le_2(s: Seq<u8>)
    requires
        s.len() == 2,
    ensures
        hex_str(le_val(s), 4) == hex_str(s[1] as nat, 2) + hex_str(s[0] as nat, 2),
{
    lemma_hex_le_step(s);
    lemma_hex_le_1(s.subrange(1, 2));
    assert(s.subrange(1, 2)[0] == s[1]);
}

/// A four-byte little-endian field renders as its bytes' digit pairs, high
/// byte first.
proof fn lemma_hex_le_4(s: Seq<u8>)
    requires
        s.len() == 4,
    ensures
        hex_str(le_val(s), 8) == hex_str(s[3] as nat, 2) + hex_str(s[2] as nat, 2) + hex_str(
            s[1] as nat,
            2,
        ) + hex_str(s[0] as nat, 2),
{
    lemma_hex_le_step(s);
    let t1 = s.subrange(1, 4);
    lemma_hex_le_step(t1);
    let t2 = t1.subrange(1, 3);
    assert(t2 =~= s.subrange(2, 4));
    lemma_hex_le_2(t2);
    assert(t1[0] == s[1] && t2[0] == s[2] && t2[1] == s[3]);
    assert(hex_str(le_val(s), 8) =~= hex_str(s[3] as nat, 2) + hex_str(s[2] as nat, 2) + hex_str(
        s[1] as nat,
        2,
    ) + hex_str(s[0] as nat, 2));
}

/// The two renderings agree: a decoded GUID formats to the same text as its
/// wire bytes reordered to big-endian and formatted byte by byte.
pub proof fn lemma_format_agrees(g: Guid, s: Seq<u8>)
    requires
        guid_matches(g, s),
    ensures
        guid_str(g) == be_guid_str(mixed_to_be(s)),
{
    lemma_hex_le_4(s.subrange(0, 4));
    lemma_hex_le_2(s.subrange(4, 6));
    lemma_hex_le_2(s.subrange(6, 8));
    let m = mixed_to_be(s);
    assert(m[0] == s[3] && m[1] == s[2] && m[2] == s[1] && m[3] == s[0]);
    assert(m[4] == s[5] && m[5] == s[4] && m[6] == s[7] && m[7] == s[6]);
    assert(forall|i: int| 8 <= i < 16 ==> m[i] == s[i]);
    assert(forall|i: int| 0 <= i < 8 ==> g.d4@[i] == s[8 + i]);
    assert(s.subrange(0, 4)[0] == s[0] && s.subrange(0, 4)[1] == s[1] && s.subrange(0, 4)[2]
        == s[2] && s.subrange(0, 4)[3] == s[3]);
    assert(s.subrange(4, 6)[0] == s[4] && s.subrange(4, 6)[1] == s[5]);
    assert(s.subrange(6, 8)[0] == s[6] && s.subrange(6, 8)[1] == s[7]);
    assert(guid_str(g) =~= be_guid_str(m));
}

/// Renders a big-endian 16-byte GUID in the canonical textual form.
pub fn format_guid(guid: &Vec<u8>) -> (r: String)
    requires
        guid@.len() == 16,
    ensures
        r@ == be_guid_str(guid@),
{
    let mut s = String::new();
    push_hex(&mut s, guid[0] as u64, 2);
    push_hex(&mut s, guid[1] as u64, 2);
    push_hex(&mut s, guid[2] as u64, 2);
    push_hex(&mut s, guid[3] as u64, 2);
    append_dash(&mut s);
    push_hex(&mut s, guid[4] as u64, 2);
    push_hex(&mut s, guid[5] as u64, 2);
    append_dash(&mut s);
    push_hex(&mut s, guid[6] as u64, 2);
    push_hex(&mut s, guid[7] as u64, 2);
    append_dash(&mut s);
    push_hex(&mut s, guid[8] as u64, 2);
    push_hex(&mut s, guid[9] as u64, 2);
    append_dash(&mut s);
    push_hex(&mut s, guid[10] as u64, 2);
    push_hex(&mut s, guid[11] as u64, 2);
    push_hex(&mut s, guid[12] as u64, 2);
    push_hex(&mut s, guid[13] as u64, 2);
    push_hex(&mut s, guid[14] as u64, 2);
    push_hex(&mut s, guid[15] as u64, 2);
    proof {
        assert(s@ =~= be_guid_str(guid@));
    }
    s
}

/// Relies on `uuid::Uuid::new_v4`: a random version-4 GUID. Nothing is
/// promised of the random bits; the version nibble is 4 and the variant
/// bits are `10`, which `new_v4` sets on every outcome.
#[verifier::external_body]
pub(crate) fn fresh_guid() -> (g: Guid)
    ensures
        g.d3 / 0x1000 == 4,
        g.d4@[0] / 64 == 2,
{
    let u = uuid::Uuid::new_v4();
    let (d1, d2, d3, d4) = u.as_fields();
    Guid { d1, d2, d3, d4: *d4 }
}

} // verus!
