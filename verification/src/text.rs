//! Building the strings the library hands out: fixed-width hexadecimal,
//! decimal, and the UTF-16 decoding of partition names.

use vstd::arithmetic::div_mod::{
    lemma_breakdown, lemma_div_denominator, lemma_div_multiples_vanish_fancy,
    lemma_mod_multiples_vanish, lemma_small_mod,
};
use vstd::prelude::*;
use vstd::string::{StrSliceExecFns, StringExecFns};
use vstd::utf8::char_u32_cast;

verus! {

/// The hexadecimal digit characters, lower case.
pub open spec fn hex_char(d: int) -> char {
    if d == 0 {
        '0'
    } else if d == 1 {
        '1'
    } else if d == 2 {
        '2'
    } else if d == 3 {
        '3'
    } else if d == 4 {
        '4'
    } else if d == 5 {
        '5'
    } else if d == 6 {
        '6'
    } else if d == 7 {
        '7'
    } else if d == 8 {
        '8'
    } else if d == 9 {
        '9'
    } else if d == 10 {
        'a'
    } else if d == 11 {
        'b'
    } else if d == 12 {
        'c'
    } else if d == 13 {
        'd'
    } else if d == 14 {
        'e'
    } else {
        'f'
    }
}

/// `width` lower-case hexadecimal digits of `v`, most significant first.
pub open spec fn hex_str(v: nat, width: nat) -> Seq<char>
    decreases width,
{
    if width == 0 {
        Seq::empty()
    } else {
        hex_str(v / 16, (width - 1) as nat).push(hex_char((v % 16) as int))
    }
}

/// The decimal digits of `n`, most significant first, without leading
/// zeroes (a single `'0'` for zero).
pub open spec fn dec_str(n: nat) -> Seq<char>
    decreases n,
{
    if n < 10 {
        seq![hex_char(n as int)]
    } else {
        dec_str(n / 10).push(hex_char((n % 10) as int))
    }
}

/// A rendering of `width` digits splits after its first `width - 2` into
/// the rendering of the value without its low byte and the two digits of
/// that byte.
pub proof fn lemma_hex_str_split(v: nat, width: nat)
    requires
        width >= 2,
    ensures
        hex_str(v, width) == hex_str(v / 256, (width - 2) as nat) + hex_str(v % 256, 2),
{
    lemma_breakdown(v as int, 16, 16);
    lemma_div_denominator(v as int, 16, 16);
    let a = (v / 16) % 16;
    let b = v % 16;
    assert(v % 256 == 16 * a + b);
    lemma_mod_multiples_vanish(a as int, b as int, 16);
    lemma_small_mod(b, 16);
    assert((v % 256) % 16 == v % 16);
    lemma_div_multiples_vanish_fancy(a as int, b as int, 16);
    assert((v % 256) / 16 == (v / 16) % 16);
    assert(hex_str(v, width) == hex_str(v / 16, (width - 1) as nat).push(
        hex_char((v % 16) as int),
    ));
    assert(hex_str(v / 16, (width - 1) as nat) == hex_str(v / 256, (width - 2) as nat).push(
        hex_char(((v / 16) % 16) as int),
    ));
    let x = (v % 256) / 16;
    lemma_small_mod(x, 16);
    assert(hex_str(x, 1) == hex_str(x / 16, 0).push(hex_char((x % 16) as int)));
    assert(hex_str(x / 16, 0) =~= Seq::<char>::empty());
    assert(hex_str((v % 256) / 16, 1) =~= seq![hex_char(((v / 16) % 16) as int)]);
    assert(hex_str(v % 256, 2) == hex_str((v % 256) / 16, 1).push(hex_char((v % 16) as int)));
    assert(hex_str(v, width) =~= hex_str(v / 256, (width - 2) as nat) + hex_str(v % 256, 2));
}

/// Appends the digit character for `d`.
fn append_digit(s: &mut String, d: u64)
    requires
        d < 16,
    ensures
        final(s)@ == old(s)@.push(hex_char(d as int)),
{
    proof {
        reveal_strlit("0");
        reveal_strlit("1");
        reveal_strlit("2");
        reveal_strlit("3");
        reveal_strlit("4");
        reveal_strlit("5");
        reveal_strlit("6");
        reveal_strlit("7");
        reveal_strlit("8");
        reveal_strlit("9");
        reveal_strlit("a");
        reveal_strlit("b");
        reveal_strlit("c");
        reveal_strlit("d");
        reveal_strlit("e");
        reveal_strlit("f");
    }
    if d == 0 {
        s.append("0");
    } else if d == 1 {
        s.append("1");
    } else if d == 2 {
        s.append("2");
    } else if d == 3 {
        s.append("3");
    } else if d == 4 {
        s.append("4");
    } else if d == 5 {
        s.append("5");
    } else if d == 6 {
        s.append("6");
    } else if d == 7 {
        s.append("7");
    } else if d == 8 {
        s.append("8");
    } else if d == 9 {
        s.append("9");
    } else if d == 10 {
        s.append("a");
    } else if d == 11 {
        s.append("b");
    } else if d == 12 {
        s.append("c");
    } else if d == 13 {
        s.append("d");
    } else if d == 14 {
        s.append("e");
    } else {
        s.append("f");
    }
    proof {
        assert(final(s)@ =~= old(s)@.push(hex_char(d as int)));
    }
}

/// Appends `width` hexadecimal digits of `v`, most significant first.
pub fn push_hex(s: &mut String, v: u64, width: usize)
    ensures
        final(s)@ == old(s)@ + hex_str(v as nat, width as nat),
    decreases width,
{
    if width == 0 {
        proof {
            assert(old(s)@ + hex_str(v as nat, 0) =~= old(s)@);
        }
    } else {
        push_hex(s, v / 16, width - 1);
        append_digit(s, v % 16);
        proof {
            assert(final(s)@ =~= old(s)@ + hex_str(v as nat, width as nat));
        }
    }
}

/// Appends the decimal rendering of `n`.
pub fn push_decimal(s: &mut String, n: u64)
    ensures
        final(s)@ == old(s)@ + dec_str(n as nat),
    decreases n,
{
    if n < 10 {
        append_digit(s, n);
        proof {
            assert(final(s)@ =~= old(s)@ + dec_str(n as nat));
        }
    } else {
        push_decimal(s, n / 10);
        append_digit(s, n % 10);
        proof {
            assert(final(s)@ =~= old(s)@ + dec_str(n as nat));
        }
    }
}

/// The characters of a string slice, in order, as a vector.
pub fn str_chars(s: &str) -> (v: Vec<char>)
    ensures
        v@ == s@,
{
    let n = s.unicode_len();
    let mut v: Vec<char> = Vec::new();
    let mut i: usize = 0;
    while i < n
        invariant
            i <= n,
            n == s@.len(),
            v@ == s@.subrange(0, i as int),
        decreases n - i,
    {
        v.push(s.get_char(i));
        i = i + 1;
        proof {
            assert(v@ =~= s@.subrange(0, i as int));
        }
    }
    proof {
        assert(s@.subrange(0, n as int) =~= s@);
    }
    v
}

/// The first unit of a surrogate pair.
pub open spec fn is_high_surrogate(u: u16) -> bool {
    0xD800 <= u < 0xDC00
}

/// The second unit of a surrogate pair.
pub open spec fn is_low_surrogate(u: u16) -> bool {
    0xDC00 <= u < 0xE000
}

/// The scalar value a surrogate pair encodes.
pub open spec fn surrogate_pair_value(hi: u16, lo: u16) -> u32 {
    (0x10000 + (hi - 0xD800) * 0x400 + (lo - 0xDC00)) as u32
}

/// The characters a UTF-16 code-unit sequence decodes to. A surrogate unit
/// outside a well-formed pair decodes to the replacement character, so every
/// unit sequence decodes to some string.
pub open spec fn utf16_chars(units: Seq<u16>) -> Seq<char>
    decreases units.len(),
{
    if units.len() == 0 {
        Seq::empty()
    } else if is_high_surrogate(units[0]) && units.len() >= 2 && is_low_surrogate(units[1]) {
        seq![surrogate_pair_value(units[0], units[1]) as char] + utf16_chars(
            units.subrange(2, units.len() as int),
        )
    } else if is_high_surrogate(units[0]) || is_low_surrogate(units[0]) {
        seq!['\u{FFFD}'] + utf16_chars(units.subrange(1, units.len() as int))
    } else {
        seq![(units[0] as u32) as char] + utf16_chars(units.subrange(1, units.len() as int))
    }
}

/// Relies on `char::from_u32`: `Some` exactly for Unicode scalar values —
/// everything below `0x110000` but the surrogate range — and then the
/// character with that code point.
pub assume_specification[ char::from_u32 ](v: u32) -> (c: Option<char>)
    ensures
        c matches Some(ch) ==> ch as u32 == v,
        (c is Some) <==> (v < 0xD800 || (0xE000 <= v && v < 0x110000)),
;

/// Relies on `String::from_iter`: the string holding exactly the given
/// characters, in order.
#[verifier::external_body]
fn chars_to_string(chars: &Vec<char>) -> (r: String)
    ensures
        r@ == chars@,
{
    chars.iter().collect()
}

/// Decodes a UTF-16 code-unit sequence, mapping each lone surrogate to the
/// replacement character.
pub fn utf16_to_string(units: &Vec<u16>) -> (r: String)
    ensures
        r@ == utf16_chars(units@),
{
    let n = units.len();
    let mut chars: Vec<char> = Vec::new();
    let mut i: usize = 0;
    proof {
        assert(units@.subrange(0, n as int) =~= units@);
        assert(chars@ + utf16_chars(units@) =~= utf16_chars(units@));
    }
    while i < n
        invariant
            i <= n,
            n == units@.len(),
            chars@ + utf16_chars(units@.subrange(i as int, n as int)) == utf16_chars(units@),
        decreases n - i,
    {
        let ghost rest = units@.subrange(i as int, n as int);
        let u = units[i];
        proof {
            assert(rest[0] == units@[i as int]);
        }
        if 0xD800 <= u && u < 0xDC00 && i + 1 < n && 0xDC00 <= units[i + 1] && units[i + 1]
            < 0xE000 {
            let lo = units[i + 1];
            let cp: u32 = 0x10000 + (u as u32 - 0xD800) * 0x400 + (lo as u32 - 0xDC00);
            let c = char::from_u32(cp);
            proof {
                assert(rest[1] == units@[i + 1]);
                assert(cp == surrogate_pair_value(u, lo));
                assert(rest.subrange(2, rest.len() as int) =~= units@.subrange(
                    i + 2,
                    n as int,
                ));
            }
            let ch = c.unwrap();
            chars.push(ch);
            proof {
                char_u32_cast(ch, cp);
                assert(ch == surrogate_pair_value(u, lo) as char);
                assert(chars@ + utf16_chars(units@.subrange(i + 2, n as int)) =~= utf16_chars(
                    units@,
                ));
            }
            i = i + 2;
        } else if 0xD800 <= u && u < 0xE000 {
            chars.push('\u{FFFD}');
            proof {
                assert(rest.subrange(1, rest.len() as int) =~= units@.subrange(
                    i + 1,
                    n as int,
                ));
                assert(chars@ + utf16_chars(units@.subrange(i + 1, n as int)) =~= utf16_chars(
                    units@,
                ));
            }
            i = i + 1;
        } else {
            let c = char::from_u32(u as u32);
            let ch = c.unwrap();
            chars.push(ch);
            proof {
                char_u32_cast(ch, u as u32);
                assert(ch == (u as u32) as char);
                assert(rest.subrange(1, rest.len() as int) =~= units@.subrange(
                    i + 1,
                    n as int,
                ));
                assert(chars@ + utf16_chars(units@.subrange(i + 1, n as int)) =~= utf16_chars(
                    units@,
                ));
            }
            i = i + 1;
        }
    }
    proof {
        assert(units@.subrange(i as int, n as int) =~= Seq::<u16>::empty());
        assert(chars@ =~= utf16_chars(units@));
    }
    chars_to_string(&chars)
}

} // verus!
