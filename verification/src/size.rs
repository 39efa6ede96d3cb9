//! Byte sizes and their textual forms, such as `"100 GiB"` or `"1024MiB"`.
//!
//! A size string is a decimal number followed by an optional unit suffix,
//! either separated by a space or written together. Decimal suffixes scale
//! by powers of 1000, binary (`..ib`) suffixes by powers of 1024.

use crate::text::{dec_str, push_decimal, str_chars};
use vstd::arithmetic::div_mod::lemma_fundamental_div_mod;
use vstd::prelude::*;
use vstd::string::StringExecFns;

verus! {

/// A whitespace character a size string may be padded with.
pub open spec fn is_space(c: char) -> bool {
    c == ' ' || c == '\t' || c == '\n' || c == '\r'
}

/// An ASCII decimal digit.
pub open spec fn is_digit(c: char) -> bool {
    48 <= c as u32 <= 57
}

/// The value of a digit character.
pub open spec fn digit_val(c: char) -> nat {
    (c as u32 - 48) as nat
}

/// Every character of `s` is a decimal digit.
pub open spec fn all_digits(s: Seq<char>) -> bool {
    forall|i: int| 0 <= i < s.len() ==> is_digit(s[i])
}

/// The number the digit string `s` spells, most significant digit first.
pub open spec fn digits_val(s: Seq<char>) -> nat
    decreases s.len(),
{
    if s.len() == 0 {
        0
    } else {
        digits_val(s.drop_last()) * 10 + digit_val(s.last())
    }
}

/// `s` without its leading whitespace.
pub open spec fn trim_front(s: Seq<char>) -> Seq<char>
    decreases s.len(),
{
    if s.len() > 0 && is_space(s[0]) {
        trim_front(s.subrange(1, s.len() as int))
    } else {
        s
    }
}

/// `s` without its trailing whitespace.
pub open spec fn trim_back(s: Seq<char>) -> Seq<char>
    decreases s.len(),
{
    if s.len() > 0 && is_space(s.last()) {
        trim_back(s.drop_last())
    } else {
        s
    }
}

/// `s` without leading and trailing whitespace.
pub open spec fn trim(s: Seq<char>) -> Seq<char> {
    trim_back(trim_front(s))
}

/// The index of the first space character at or after `i`, or `-1`.
pub open spec fn find_space(s: Seq<char>, i: nat) -> int
    decreases s.len() - i,
{
    if i >= s.len() {
        -1
    } else if s[i as int] == ' ' {
        i as int
    } else {
        find_space(s, i + 1)
    }
}

/// How many characters of `s` before the first non-digit.
pub open spec fn digits_prefix_len(s: Seq<char>) -> nat
    decreases s.len(),
{
    if s.len() == 0 || !is_digit(s[0]) {
        0
    } else {
        1 + digits_prefix_len(s.subrange(1, s.len() as int))
    }
}

/// The lower-case code point of an ASCII character.
pub open spec fn lc(c: char) -> u32 {
    if 65 <= c as u32 <= 90 {
        (c as u32 + 32) as u32
    } else {
        c as u32
    }
}

/// The scale factor a unit suffix names, compared case-insensitively:
/// single letters and `..b` forms are decimal, `..ib` forms are binary, a
/// bare `b` is one, and anything else is no suffix at all.
pub open spec fn multiplier_spec(s: Seq<char>) -> Option<u64> {
    if s.len() == 1 {
        if lc(s[0]) == 'b' as u32 {
            Some(1u64)
        } else if lc(s[0]) == 'k' as u32 {
            Some(1000u64)
        } else if lc(s[0]) == 'm' as u32 {
            Some(1000_000u64)
        } else if lc(s[0]) == 'g' as u32 {
            Some(1000_000_000u64)
        } else if lc(s[0]) == 't' as u32 {
            Some(1000_000_000_000u64)
        } else if lc(s[0]) == 'p' as u32 {
            Some(1000_000_000_000_000u64)
        } else {
            None
        }
    } else if s.len() == 2 && lc(s[1]) == 'b' as u32 {
        if lc(s[0]) == 'k' as u32 {
            Some(1000u64)
        } else if lc(s[0]) == 'm' as u32 {
            Some(1000_000u64)
        } else if lc(s[0]) == 'g' as u32 {
            Some(1000_000_000u64)
        } else if lc(s[0]) == 't' as u32 {
            Some(1000_000_000_000u64)
        } else if lc(s[0]) == 'p' as u32 {
            Some(1000_000_000_000_000u64)
        } else {
            None
        }
    } else if s.len() == 3 && lc(s[1]) == 'i' as u32 && lc(s[2]) == 'b' as u32 {
        if lc(s[0]) == 'k' as u32 {
            Some(0x400u64)
        } else if lc(s[0]) == 'm' as u32 {
            Some(0x10_0000u64)
        } else if lc(s[0]) == 'g' as u32 {
            Some(0x4000_0000u64)
        } else if lc(s[0]) == 't' as u32 {
            Some(0x100_0000_0000u64)
        } else if lc(s[0]) == 'p' as u32 {
            Some(0x4_0000_0000_0000u64)
        } else {
            None
        }
    } else {
        None
    }
}

/// The value of a number string under a possible scale factor: the digits'
/// value times the factor, when the string is a non-empty digit string, the
/// factor exists and the product fits.
pub open spec fn combine(num: Seq<char>, m: Option<u64>) -> Option<u64> {
    match m {
        None => None,
        Some(k) => {
            if num.len() > 0 && all_digits(num) && digits_val(num) * k <= u64::MAX {
                Some((digits_val(num) * k) as u64)
            } else {
                None
            }
        },
    }
}

/// What a size string denotes: split at the first space into number and
/// suffix if there is one; otherwise split the trimmed string where its
/// leading digits end, when they end properly inside it; otherwise the
/// whole trimmed string is the number. Both parts are trimmed; the number
/// times the suffix's factor must fit 64 bits.
pub open spec fn parse_size_spec(s: Seq<char>) -> Option<u64> {
    let sp = find_space(s, 0);
    if sp >= 0 {
        combine(
            trim(s.subrange(0, sp)),
            multiplier_spec(trim(s.subrange(sp + 1, s.len() as int))),
        )
    } else {
        let t = trim(s);
        let d = digits_prefix_len(t);
        if 0 < d < t.len() {
            combine(t.subrange(0, d as int), multiplier_spec(t.subrange(d as int, t.len() as int)))
        } else {
            combine(t, Some(1u64))
        }
    }
}

/// A failed size parse, with a human-readable description.
#[derive(Debug)]
pub struct SizeParseError {
    pub details: String,
}

impl SizeParseError {
    /// Wraps a description.
    pub fn new(msg: &str) -> (r: SizeParseError)
        ensures
            r.details@ == msg@,
    {
        SizeParseError { details: msg.to_owned() }
    }

    /// The description, for reporting.
    pub fn message(&self) -> (r: &str)
        ensures
            r@ == self.details@,
    {
        self.details.as_str()
    }
}

/// True exactly when `c` is a whitespace character.
fn is_space_exec(c: char) -> (r: bool)
    ensures
        r == is_space(c),
{
    c == ' ' || c == '\t' || c == '\n' || c == '\r'
}

/// True exactly when `c` is a decimal digit.
fn is_digit_exec(c: char) -> (r: bool)
    ensures
        r == is_digit(c),
{
    let u = c as u32;
    48 <= u && u <= 57
}

/// The lower-case code point of `c`.
fn lc_exec(c: char) -> (r: u32)
    ensures
        r == lc(c),
{
    let u = c as u32;
    if 65 <= u && u <= 90 {
        u + 32
    } else {
        u
    }
}

/// Narrows `[lo0, hi0)` to the same range without leading or trailing
/// whitespace.
fn trim_range(chars: &Vec<char>, lo0: usize, hi0: usize) -> (r: (usize, usize))
    requires
        lo0 <= hi0 <= chars@.len(),
    ensures
        lo0 <= r.0 <= r.1 <= hi0,
        chars@.subrange(r.0 as int, r.1 as int) == trim(
            chars@.subrange(lo0 as int, hi0 as int),
        ),
{
    let mut lo = lo0;
    while lo < hi0 && is_space_exec(chars[lo])
        invariant
            lo0 <= lo <= hi0 <= chars@.len(),
            trim_front(chars@.subrange(lo0 as int, hi0 as int)) == trim_front(
                chars@.subrange(lo as int, hi0 as int),
            ),
        decreases hi0 - lo,
    {
        proof {
            let cur = chars@.subrange(lo as int, hi0 as int);
            assert(cur[0] == chars@[lo as int]);
            assert(cur.subrange(1, cur.len() as int) =~= chars@.subrange(
                lo + 1,
                hi0 as int,
            ));
        }
        lo = lo + 1;
    }
    proof {
        let cur = chars@.subrange(lo as int, hi0 as int);
        assert(trim_front(cur) == cur);
    }
    let mut hi = hi0;
    while hi > lo && is_space_exec(chars[hi - 1])
        invariant
            lo <= hi <= hi0 <= chars@.len(),
            trim_back(chars@.subrange(lo as int, hi0 as int)) == trim_back(
                chars@.subrange(lo as int, hi as int),
            ),
        decreases hi,
    {
        proof {
            let cur = chars@.subrange(lo as int, hi as int);
            assert(cur.last() == chars@[hi - 1]);
            assert(cur.drop_last() =~= chars@.subrange(lo as int, hi - 1));
        }
        hi = hi - 1;
    }
    proof {
        let cur = chars@.subrange(lo as int, hi as int);
        assert(trim_back(cur) == cur);
    }
    (lo, hi)
}

/// A digit string keeps or grows its value as more digits follow.
proof fn lemma_digits_val_prefix_le(s: Seq<char>, k: int)
    requires
        0 <= k <= s.len(),
    ensures
        digits_val(s) >= digits_val(s.subrange(0, k)),
    decreases s.len(),
{
    if k < s.len() {
        lemma_digits_val_prefix_le(s.drop_last(), k);
        assert(s.drop_last().subrange(0, k) =~= s.subrange(0, k));
    } else {
        assert(s.subrange(0, k) =~= s);
    }
}

/// Parses `[lo, hi)` as an unsigned decimal number; no value when the range
/// is empty, holds a non-digit, or spells a number above `u64::MAX`.
fn parse_u64_digits(chars: &Vec<char>, lo: usize, hi: usize) -> (r: Option<u64>)
    requires
        lo <= hi <= chars@.len(),
    ensures
        ({
            let sub = chars@.subrange(lo as int, hi as int);
            match r {
                Some(v) => sub.len() > 0 && all_digits(sub) && v == digits_val(sub),
                None => sub.len() == 0 || !all_digits(sub) || digits_val(sub) > u64::MAX,
            }
        }),
{
    let ghost sub = chars@.subrange(lo as int, hi as int);
    if lo == hi {
        return None;
    }
    let mut val: u64 = 0;
    let mut i: usize = lo;
    while i < hi
        invariant
            lo <= i <= hi <= chars@.len(),
            sub == chars@.subrange(lo as int, hi as int),
            all_digits(sub.subrange(0, i - lo)),
            val == digits_val(sub.subrange(0, i - lo)),
        decreases hi - i,
    {
        let c = chars[i];
        let u = c as u32;
        proof {
            assert(sub[i - lo] == chars@[i as int]);
        }
        if !(48 <= u && u <= 57) {
            proof {
                assert(!is_digit(sub[i - lo]));
            }
            return None;
        }
        let d: u64 = (u - 48) as u64;
        let ghost next = sub.subrange(0, i + 1 - lo);
        proof {
            assert(next.drop_last() =~= sub.subrange(0, i - lo));
            assert(next.last() == sub[i - lo]);
            assert(digits_val(next) == val * 10 + d);
            lemma_fundamental_div_mod((u64::MAX - d) as int, 10);
        }
        if val > (u64::MAX - d) / 10 {
            proof {
                lemma_digits_val_prefix_le(sub, i + 1 - lo);
            }
            return None;
        }
        val = val * 10 + d;
        i = i + 1;
    }
    proof {
        assert(sub.subrange(0, hi - lo) =~= sub);
    }
    Some(val)
}

/// The scale factor of the suffix in `[lo, hi)`.
fn multiplier_of_range(chars: &Vec<char>, lo: usize, hi: usize) -> (r: Result<
    u64,
    SizeParseError,
>)
    requires
        lo <= hi <= chars@.len(),
    ensures
        ({
            let sub = chars@.subrange(lo as int, hi as int);
            match r {
                Ok(v) => multiplier_spec(sub) == Some(v),
                Err(_) => multiplier_spec(sub) is None,
            }
        }),
{
    let ghost sub = chars@.subrange(lo as int, hi as int);
    let n = hi - lo;
    proof {
        if n >= 1 {
            assert(sub[0] == chars@[lo as int]);
        }
        if n >= 2 {
            assert(sub[1] == chars@[lo + 1]);
        }
        if n >= 3 {
            assert(sub[2] == chars@[lo + 2]);
        }
    }
    if n == 1 {
        let c0 = lc_exec(chars[lo]);
        if c0 == 'b' as u32 {
            Ok(1)
        } else if c0 == 'k' as u32 {
            Ok(1000)
        } else if c0 == 'm' as u32 {
            Ok(1000_000)
        } else if c0 == 'g' as u32 {
            Ok(1000_000_000)
        } else if c0 == 't' as u32 {
            Ok(1000_000_000_000)
        } else if c0 == 'p' as u32 {
            Ok(1000_000_000_000_000)
        } else {
            Err(SizeParseError::new("unsupported size suffix"))
        }
    } else if n == 2 {
        let c0 = lc_exec(chars[lo]);
        let c1 = lc_exec(chars[lo + 1]);
        if c1 != 'b' as u32 {
            return Err(SizeParseError::new("unsupported size suffix"));
        }
        if c0 == 'k' as u32 {
            Ok(1000)
        } else if c0 == 'm' as u32 {
            Ok(1000_000)
        } else if c0 == 'g' as u32 {
            Ok(1000_000_000)
        } else if c0 == 't' as u32 {
            Ok(1000_000_000_000)
        } else if c0 == 'p' as u32 {
            Ok(1000_000_000_000_000)
        } else {
            Err(SizeParseError::new("unsupported size suffix"))
        }
    } else if n == 3 {
        let c0 = lc_exec(chars[lo]);
        let c1 = lc_exec(chars[lo + 1]);
        let c2 = lc_exec(chars[lo + 2]);
        if c1 != 'i' as u32 || c2 != 'b' as u32 {
            return Err(SizeParseError::new("unsupported size suffix"));
        }
        if c0 == 'k' as u32 {
            Ok(0x400)
        } else if c0 == 'm' as u32 {
            Ok(0x10_0000)
        } else if c0 == 'g' as u32 {
            Ok(0x4000_0000)
        } else if c0 == 't' as u32 {
            Ok(0x100_0000_0000)
        } else if c0 == 'p' as u32 {
            Ok(0x4_0000_0000_0000)
        } else {
            Err(SizeParseError::new("unsupported size suffix"))
        }
    } else {
        Err(SizeParseError::new("unsupported size suffix"))
    }
}

/// Looks up the scale factor a unit suffix names.
pub fn get_multiplier(suffix: &str) -> (r: Result<u64, SizeParseError>)
    ensures
        match r {
            Ok(v) => multiplier_spec(suffix@) == Some(v),
            Err(_) => multiplier_spec(suffix@) is None,
        },
{
    let chars = str_chars(suffix);
    let n = chars.len();
    proof {
        assert(chars@.subrange(0, n as int) =~= suffix@);
    }
    multiplier_of_range(&chars, 0, n)
}

/// Parses a size string into its byte count.
pub fn parse_bytes(value: &str) -> (r: Result<u64, SizeParseError>)
    ensures
        match r {
            Ok(v) => parse_size_spec(value@) == Some(v),
            Err(_) => parse_size_spec(value@) is None,
        },
{
    let chars = str_chars(value);
    let n = chars.len();
    let mut i: usize = 0;
    let mut found = false;
    while i < n && !found
        invariant
            i <= n,
            n == chars@.len(),
            chars@ == value@,
            !found ==> find_space(chars@, 0) == find_space(chars@, i as nat),
            found ==> i < n && find_space(chars@, 0) == i,
        decreases n - i, (if found { 0int } else { 1int }),
    {
        if chars[i] == ' ' {
            found = true;
        } else {
            i = i + 1;
        }
    }
    let (num_lo, num_hi, mult) = if found {
        let (nlo, nhi) = trim_range(&chars, 0, i);
        let (slo, shi) = trim_range(&chars, i + 1, n);
        let m = match multiplier_of_range(&chars, slo, shi) {
            Ok(m) => m,
            Err(e) => {
                return Err(e);
            },
        };
        proof {
            lemma_multiplier_pos(chars@.subrange(slo as int, shi as int));
        }
        (nlo, nhi, m)
    } else {
        proof {
            assert(find_space(chars@, 0) == -1);
            assert(chars@.subrange(0, n as int) =~= chars@);
        }
        let (tlo, thi) = trim_range(&chars, 0, n);
        let ghost t = chars@.subrange(tlo as int, thi as int);
        let mut d: usize = 0;
        proof {
            assert(t.subrange(0, t.len() as int) =~= t);
        }
        while tlo + d < thi && is_digit_exec(chars[tlo + d])
            invariant
                tlo + d <= thi <= chars@.len(),
                t == chars@.subrange(tlo as int, thi as int),
                digits_prefix_len(t) == d + digits_prefix_len(
                    t.subrange(d as int, t.len() as int),
                ),
                all_digits(t.subrange(0, d as int)),
            decreases thi - tlo - d,
        {
            proof {
                let rest = t.subrange(d as int, t.len() as int);
                assert(rest[0] == chars@[tlo + d]);
                assert(rest.subrange(1, rest.len() as int) =~= t.subrange(
                    d + 1,
                    t.len() as int,
                ));
                assert(all_digits(t.subrange(0, d + 1)));
            }
            d = d + 1;
        }
        proof {
            let rest = t.subrange(d as int, t.len() as int);
            if tlo + d < thi {
                assert(rest[0] == chars@[tlo + d]);
                assert(!is_digit(rest[0]));
            }
            assert(digits_prefix_len(rest) == 0);
            assert(digits_prefix_len(t) == d);
        }
        if d > 0 && tlo + d < thi {
            let m = match multiplier_of_range(&chars, tlo + d, thi) {
                Ok(m) => m,
                Err(e) => {
                    proof {
                        assert(t.subrange(d as int, t.len() as int) =~= chars@.subrange(
                            tlo + d,
                            thi as int,
                        ));
                    }
                    return Err(e);
                },
            };
            proof {
                assert(t.subrange(d as int, t.len() as int) =~= chars@.subrange(
                    tlo + d,
                    thi as int,
                ));
                assert(t.subrange(0, d as int) =~= chars@.subrange(tlo as int, tlo + d));
                lemma_multiplier_pos(chars@.subrange(tlo + d, thi as int));
            }
            (tlo, tlo + d, m)
        } else {
            (tlo, thi, 1u64)
        }
    };
    let v = match parse_u64_digits(&chars, num_lo, num_hi) {
        Some(v) => v,
        None => {
            proof {
                let numsub = chars@.subrange(num_lo as int, num_hi as int);
                if numsub.len() > 0 && all_digits(numsub) {
                    assert(digits_val(numsub) * mult > u64::MAX) by (nonlinear_arith)
                        requires
                            mult >= 1,
                            digits_val(numsub) > u64::MAX,
                    ;
                }
            }
            return Err(SizeParseError::new("size value is not a number"));
        },
    };
    match v.checked_mul(mult) {
        Some(total) => Ok(total),
        None => Err(SizeParseError::new("size does not fit 64 bits")),
    }
}

/// A byte count.
#[derive(Debug, Clone, Copy, PartialEq, Eq, Structural)]
pub struct Size {
    pub byte_count: u64,
}

impl Size {
    /// A size of exactly `bytes` bytes.
    pub fn new(bytes: u64) -> (r: Size)
        ensures
            r.byte_count == bytes,
    {
        Size { byte_count: bytes }
    }

    /// The byte count.
    pub fn bytes(&self) -> (r: u64)
        ensures
            r == self.byte_count,
    {
        self.byte_count
    }

    /// Renders the size in the given unit, rounded down: the quotient in
    /// decimal, a space, and the unit as written.
    pub fn as_symbol(&self, symbol: &str) -> (r: Result<String, SizeParseError>)
        ensures
            match r {
                Ok(s) => {
                    &&& multiplier_spec(symbol@) matches Some(m) && s@ == dec_str(
                        (self.byte_count / m) as nat,
                    ) + seq![' '] + symbol@
                },
                Err(_) => multiplier_spec(symbol@) is None,
            },
    {
        let divisor = match get_multiplier(symbol) {
            Ok(m) => m,
            Err(e) => {
                return Err(e);
            },
        };
        proof {
            lemma_multiplier_pos(symbol@);
        }
        let mut s = String::new();
        push_decimal(&mut s, self.byte_count / divisor);
        proof {
            reveal_strlit(" ");
        }
        s.append(" ");
        s.append(symbol);
        proof {
            assert(s@ =~= dec_str((self.byte_count / divisor) as nat) + seq![' '] + symbol@);
        }
        Ok(s)
    }

    /// The number of whole sectors of `lba_size` bytes the size covers.
    pub fn as_sectors(&self, lba_size: u64) -> (r: u64)
        requires
            lba_size > 0,
        ensures
            r == self.byte_count / lba_size,
    {
        self.byte_count / lba_size
    }
}

/// Every scale factor a suffix can name is positive.
proof fn lemma_multiplier_pos(s: Seq<char>)
    ensures
        multiplier_spec(s) matches Some(m) ==> m >= 1,
{
}

impl std::str::FromStr for Size {
    type Err = SizeParseError;

    /// Parses a size string.
    fn from_str(s: &str) -> Result<Size, SizeParseError> {
        match parse_bytes(s) {
            Ok(v) => Ok(Size::new(v)),
            Err(e) => Err(e),
        }
    }
}

} // verus!
