//! The worker output protocol.
//!
//! A worker emits exactly one structured record on its standard output: an
//! object in the standard text notation, with the fields `store`, `status`,
//! `price`, `count`, `time`, `error` and `method`. This module gives the
//! record grammar as specification functions over the raw bytes and a
//! decoder proved against them, byte for byte: escape sequences (including
//! `\uXXXX` pairs for the supplementary planes) are decoded, numbers follow
//! the standard number grammar, required fields must be present, a key may
//! not repeat, and a field outside the record schema rejects the record.

use vstd::prelude::*;
use vstd::utf8::encode_scalar;
use vstd::utf8::is_scalar;
use vstd::utf8::valid_utf8;
use vstd::utf8::decode_utf8;

use crate::models::ScraperResponse;
use crate::models::ScraperResponseView;

verus! {

// ---------------------------------------------------------------------------
// Character classes
// ---------------------------------------------------------------------------

pub open spec fn is_ws(b: u8) -> bool {
    b == 0x20 || b == 0x09 || b == 0x0a || b == 0x0d
}

pub open spec fn is_digit(b: u8) -> bool {
    0x30 <= b <= 0x39
}

pub open spec fn hex_val(b: u8) -> Option<u32> {
    if 0x30 <= b <= 0x39 {
        Option::Some((b - 0x30) as u32)
    } else if 0x41 <= b <= 0x46 {
        Option::Some((b - 0x41 + 10) as u32)
    } else if 0x61 <= b <= 0x66 {
        Option::Some((b - 0x61 + 10) as u32)
    } else {
        Option::None
    }
}

/// The single-character escapes and the byte each stands for.
pub open spec fn simple_escape(b: u8) -> Option<u8> {
    if b == 0x22 {
        Option::Some(0x22)
    } else if b == 0x5c {
        Option::Some(0x5c)
    } else if b == 0x2f {
        Option::Some(0x2f)
    } else if b == 0x62 {
        Option::Some(0x08)
    } else if b == 0x66 {
        Option::Some(0x0c)
    } else if b == 0x6e {
        Option::Some(0x0a)
    } else if b == 0x72 {
        Option::Some(0x0d)
    } else if b == 0x74 {
        Option::Some(0x09)
    } else {
        Option::None
    }
}

// ---------------------------------------------------------------------------
// Scanning
// ---------------------------------------------------------------------------

/// The first index at or after `i` that holds no whitespace.
pub open spec fn spec_skip_ws(s: Seq<u8>, i: int) -> int
    decreases s.len() - i,
{
    if i < s.len() && is_ws(s[i]) {
        spec_skip_ws(s, i + 1)
    } else {
        i
    }
}

/// The first index at or after `i` that holds no decimal digit.
pub open spec fn spec_skip_digits(s: Seq<u8>, i: int) -> int
    decreases s.len() - i,
{
    if i < s.len() && is_digit(s[i]) {
        spec_skip_digits(s, i + 1)
    } else {
        i
    }
}

pub proof fn lemma_skip_digits_bounds(s: Seq<u8>, i: int)
    requires
        0 <= i <= s.len(),
    ensures
        i <= spec_skip_digits(s, i) <= s.len(),
    decreases s.len() - i,
{
    if i < s.len() && is_digit(s[i]) {
        lemma_skip_digits_bounds(s, i + 1);
    }
}

pub fn skip_ws(s: &[u8], i: usize) -> (r: usize)
    requires
        i <= s@.len(),
    ensures
        r == spec_skip_ws(s@, i as int),
        i <= r <= s@.len(),
{
    let mut cur = i;
    while cur < s.len() && ws_byte(s[cur])
        invariant
            i <= cur <= s@.len(),
            spec_skip_ws(s@, i as int) == spec_skip_ws(s@, cur as int),
        decreases s@.len() - cur,
    {
        cur = cur + 1;
    }
    cur
}

fn ws_byte(b: u8) -> (r: bool)
    ensures
        r == is_ws(b),
{
    b == 0x20 || b == 0x09 || b == 0x0a || b == 0x0d
}

fn digit_byte(b: u8) -> (r: bool)
    ensures
        r == is_digit(b),
{
    0x30 <= b && b <= 0x39
}

pub fn skip_digits(s: &[u8], i: usize) -> (r: usize)
    requires
        i <= s@.len(),
    ensures
        r == spec_skip_digits(s@, i as int),
        i <= r <= s@.len(),
{
    let mut cur = i;
    while cur < s.len() && digit_byte(s[cur])
        invariant
            i <= cur <= s@.len(),
            spec_skip_digits(s@, i as int) == spec_skip_digits(s@, cur as int),
        decreases s@.len() - cur,
    {
        cur = cur + 1;
    }
    cur
}

// ---------------------------------------------------------------------------
// Strings
// ---------------------------------------------------------------------------

/// The four hexadecimal digits after a `\u`, as a code unit.
pub open spec fn spec_hex4(s: Seq<u8>, i: int) -> Option<u32> {
    if i + 4 <= s.len() {
        match (hex_val(s[i]), hex_val(s[i + 1]), hex_val(s[i + 2]), hex_val(s[i + 3])) {
            (Option::Some(a), Option::Some(b), Option::Some(c), Option::Some(d)) => Option::Some(
                (a * 0x1000 + b * 0x100 + c * 0x10 + d) as u32,
            ),
            _ => Option::None,
        }
    } else {
        Option::None
    }
}

/// One `\uXXXX` escape starting at the backslash at `i`, possibly a
/// surrogate pair: the UTF-8 bytes of the scalar and the index after the
/// escape.
pub open spec fn spec_u_escape(s: Seq<u8>, i: int) -> Option<(Seq<u8>, int)> {
    match spec_hex4(s, i + 2) {
        Option::None => Option::None,
        Option::Some(hi) => {
            if 0xD800 <= hi <= 0xDBFF {
                // a high surrogate must be followed by an escaped low one
                if i + 8 <= s.len() && s[i + 6] == 0x5c && s[i + 7] == 0x75 {
                    match spec_hex4(s, i + 8) {
                        Option::None => Option::None,
                        Option::Some(lo) => {
                            if 0xDC00 <= lo <= 0xDFFF {
                                let scalar = (0x10000 + (hi - 0xD800) * 0x400 + (lo
                                    - 0xDC00)) as u32;
                                Option::Some((encode_scalar(scalar), i + 12))
                            } else {
                                Option::None
                            }
                        },
                    }
                } else {
                    Option::None
                }
            } else if 0xDC00 <= hi <= 0xDFFF {
                Option::None
            } else {
                Option::Some((encode_scalar(hi), i + 6))
            }
        },
    }
}

/// The body of a quoted string, starting just after the opening quote:
/// the decoded bytes and the index after the closing quote.
pub open spec fn spec_string_body(s: Seq<u8>, i: int) -> Option<(Seq<u8>, int)>
    decreases s.len() - i,
{
    if i < 0 || i >= s.len() {
        Option::None
    } else if s[i] == 0x22 {
        Option::Some((Seq::empty(), i + 1))
    } else if s[i] == 0x5c {
        if i + 1 < s.len() && s[i + 1] == 0x75 {
            match spec_u_escape(s, i) {
                Option::None => Option::None,
                Option::Some((bytes, j)) => {
                    if j > i {
                        match spec_string_body(s, j) {
                            Option::None => Option::None,
                            Option::Some((rest, k)) => Option::Some((bytes + rest, k)),
                        }
                    } else {
                        Option::None
                    }
                },
            }
        } else if i + 1 < s.len() {
            match simple_escape(s[i + 1]) {
                Option::None => Option::None,
                Option::Some(u) => match spec_string_body(s, i + 2) {
                    Option::None => Option::None,
                    Option::Some((rest, k)) => Option::Some((seq![u] + rest, k)),
                },
            }
        } else {
            Option::None
        }
    } else if s[i] < 0x20 {
        Option::None
    } else {
        match spec_string_body(s, i + 1) {
            Option::None => Option::None,
            Option::Some((rest, k)) => Option::Some((seq![s[i]] + rest, k)),
        }
    }
}

/// Appending already-decoded bytes in front of a parse continuation.
pub open spec fn body_with_prefix(pre: Seq<u8>, r: Option<(Seq<u8>, int)>) -> Option<
    (Seq<u8>, int),
> {
    match r {
        Option::None => Option::None,
        Option::Some((b, j)) => Option::Some((pre + b, j)),
    }
}

/// Read the four hexadecimal digits after a `\u`.
fn hex4(s: &[u8], i: usize) -> (r: Option<u32>)
    requires
        i <= s@.len(),
    ensures
        r == spec_hex4(s@, i as int),
{
    if s.len() >= 4 && i <= s.len() - 4 {
        let a = hex_digit(s[i]);
        let b = hex_digit(s[i + 1]);
        let c = hex_digit(s[i + 2]);
        let d = hex_digit(s[i + 3]);
        match (a, b, c, d) {
            (Some(a), Some(b), Some(c), Some(d)) => Some(a * 0x1000 + b * 0x100 + c * 0x10 + d),
            _ => None,
        }
    } else {
        None
    }
}

fn unescape_simple(b: u8) -> (r: Option<u8>)
    ensures
        r == simple_escape(b),
{
    if b == 0x22 {
        Some(0x22)
    } else if b == 0x5c {
        Some(0x5c)
    } else if b == 0x2f {
        Some(0x2f)
    } else if b == 0x62 {
        Some(0x08)
    } else if b == 0x66 {
        Some(0x0c)
    } else if b == 0x6e {
        Some(0x0a)
    } else if b == 0x72 {
        Some(0x0d)
    } else if b == 0x74 {
        Some(0x09)
    } else {
        None
    }
}

fn hex_digit(b: u8) -> (r: Option<u32>)
    ensures
        r == hex_val(b),
{
    if 0x30 <= b && b <= 0x39 {
        Some((b - 0x30) as u32)
    } else if 0x41 <= b && b <= 0x46 {
        Some((b - 0x41 + 10) as u32)
    } else if 0x61 <= b && b <= 0x66 {
        Some((b - 0x61 + 10) as u32)
    } else {
        None
    }
}

/// Append the UTF-8 encoding of one scalar.
fn push_scalar(out: &mut Vec<u8>, scalar: u32)
    requires
        is_scalar(scalar),
    ensures
        final(out)@ =~= old(out)@ + encode_scalar(scalar),
{
    if scalar <= 0x7F {
        out.push((scalar & 0x7F) as u8);
    } else if scalar <= 0x7FF {
        out.push(0xC0 | (((scalar >> 6) & 0x1F) as u8));
        out.push(0x80 | ((scalar & 0x3F) as u8));
    } else if scalar <= 0xFFFF {
        out.push(0xE0 | (((scalar >> 12) & 0x0F) as u8));
        out.push(0x80 | (((scalar >> 6) & 0x3F) as u8));
        out.push(0x80 | ((scalar & 0x3F) as u8));
    } else {
        out.push(0xF0 | (((scalar >> 18) & 0x7) as u8));
        out.push(0x80 | (((scalar >> 12) & 0x3F) as u8));
        out.push(0x80 | (((scalar >> 6) & 0x3F) as u8));
        out.push(0x80 | ((scalar & 0x3F) as u8));
    }
}

/// Decode a quoted string's body, starting just after the opening quote.
#[verifier::rlimit(60)]
pub fn parse_string_body(s: &[u8], start: usize) -> (r: Option<(Vec<u8>, usize)>)
    requires
        start <= s@.len(),
    ensures
        s@.len() <= usize::MAX,
        match spec_string_body(s@, start as int) {
            Option::None => r is None,
            Option::Some((bytes, j)) => {
                let t = r->0;
                &&& r is Some
                &&& t.0@ == bytes
                &&& t.1 == j
                &&& start < j <= s@.len()
            },
        },
{
    let mut out: Vec<u8> = Vec::new();
    let mut i = start;
    loop
        invariant
            start <= i <= s@.len(),
            spec_string_body(s@, start as int) == body_with_prefix(
                out@,
                spec_string_body(s@, i as int),
            ),
        decreases s@.len() - i,
    {
        if i >= s.len() {
            return None;
        }
        let b = s[i];
        if b == 0x22 {
            proof {
                assert(out@ + Seq::<u8>::empty() =~= out@);
            }
            return Some((out, i + 1));
        } else if b == 0x5c {
            if i + 1 < s.len() && s[i + 1] == 0x75 {
                let ghost pre = out@;
                let hi_opt = hex4(s, i + 2);
                if hi_opt.is_none() {
                    return None;
                }
                let hi = hi_opt.unwrap();
                let scalar: u32;
                let after: usize;
                if 0xD800 <= hi && hi <= 0xDBFF {
                    if !(s.len() >= 8 && i <= s.len() - 8 && s[i + 6] == 0x5c && s[i + 7] == 0x75) {
                        return None;
                    }
                    let lo_opt = hex4(s, i + 8);
                    if lo_opt.is_none() {
                        return None;
                    }
                    let lo = lo_opt.unwrap();
                    if !(0xDC00 <= lo && lo <= 0xDFFF) {
                        return None;
                    }
                    scalar = 0x10000 + (hi - 0xD800) * 0x400 + (lo - 0xDC00);
                    after = i + 12;
                } else if 0xDC00 <= hi && hi <= 0xDFFF {
                    return None;
                } else {
                    scalar = hi;
                    after = i + 6;
                }
                push_scalar(&mut out, scalar);
                proof {
                    assert(spec_u_escape(s@, i as int) is Some);
                    let u = spec_u_escape(s@, i as int)->0;
                    assert(out@ =~= pre + u.0);
                    assert(after == u.1);
                    match spec_string_body(s@, after as int) {
                        Option::None => {},
                        Option::Some((rest, k)) => {
                            assert(pre + (u.0 + rest) =~= (pre + u.0) + rest);
                        },
                    }
                }
                i = after;
            } else if i + 1 < s.len() {
                let u_opt = unescape_simple(s[i + 1]);
                if u_opt.is_none() {
                    return None;
                }
                let u = u_opt.unwrap();
                let ghost pre = out@;
                out.push(u);
                proof {
                    assert(simple_escape(s@[i + 1]) == Option::Some(u));
                    assert(out@ =~= pre + seq![u]);
                    match spec_string_body(s@, i as int + 2) {
                        Option::None => {},
                        Option::Some((rest, k)) => {
                            assert(pre + (seq![u] + rest) =~= (pre + seq![u]) + rest);
                        },
                    }
                }
                i = i + 2;
            } else {
                return None;
            }
        } else if b < 0x20 {
            return None;
        } else {
            let ghost pre = out@;
            out.push(b);
            proof {
                assert(out@ =~= pre + seq![b]);
                match spec_string_body(s@, i as int + 1) {
                    Option::None => {},
                    Option::Some((rest, k)) => {
                        assert(pre + (seq![b] + rest) =~= (pre + seq![b]) + rest);
                    },
                }
            }
            i = i + 1;
        }
    }
}

// ---------------------------------------------------------------------------
// Numbers
// ---------------------------------------------------------------------------

/// The end of a number literal starting at `i` — optional sign, an integer
/// part without a superfluous leading zero, an optional fraction, an
/// optional exponent — or nothing if no well-formed literal starts there.
pub open spec fn spec_number_end(s: Seq<u8>, i: int) -> Option<int> {
    let st = if i < s.len() && s[i] == 0x2d {
        i + 1
    } else {
        i
    };
    if st >= s.len() || !is_digit(s[st]) {
        Option::None
    } else {
        let int_end = if s[st] == 0x30 {
            st + 1
        } else {
            spec_skip_digits(s, st)
        };
        let frac_end = if int_end < s.len() && s[int_end] == 0x2e {
            if int_end + 1 < s.len() && is_digit(s[int_end + 1]) {
                Option::Some(spec_skip_digits(s, int_end + 1))
            } else {
                Option::None
            }
        } else {
            Option::Some(int_end)
        };
        match frac_end {
            Option::None => Option::None,
            Option::Some(fe) => {
                if fe < s.len() && (s[fe] == 0x65 || s[fe] == 0x45) {
                    let es = if fe + 1 < s.len() && (s[fe + 1] == 0x2b || s[fe + 1] == 0x2d) {
                        fe + 2
                    } else {
                        fe + 1
                    };
                    if es < s.len() && is_digit(s[es]) {
                        Option::Some(spec_skip_digits(s, es))
                    } else {
                        Option::None
                    }
                } else {
                    Option::Some(fe)
                }
            },
        }
    }
}

/// Find the end of a number literal starting at `i`.
pub fn number_end(s: &[u8], i: usize) -> (r: Option<usize>)
    requires
        i <= s@.len(),
    ensures
        s@.len() <= usize::MAX,
        match spec_number_end(s@, i as int) {
            Option::None => r is None,
            Option::Some(j) => r == Option::Some(j as usize) && i <= j <= s@.len(),
        },
        r is Some ==> i <= r->0 <= s@.len(),
{
    proof {
        lemma_skip_digits_bounds(s@, i as int);
    }
    let st = if i < s.len() && s[i] == 0x2d {
        i + 1
    } else {
        i
    };
    if st >= s.len() || !digit_byte(s[st]) {
        return None;
    }
    let int_end = if s[st] == 0x30 {
        st + 1
    } else {
        skip_digits(s, st)
    };
    let fe: usize;
    if int_end < s.len() && s[int_end] == 0x2e {
        if int_end + 1 < s.len() && digit_byte(s[int_end + 1]) {
            fe = skip_digits(s, int_end + 1);
        } else {
            return None;
        }
    } else {
        fe = int_end;
    }
    if fe < s.len() && (s[fe] == 0x65 || s[fe] == 0x45) {
        let es = if fe + 1 < s.len() && (s[fe + 1] == 0x2b || s[fe + 1] == 0x2d) {
            fe + 2
        } else {
            fe + 1
        };
        if es < s.len() && digit_byte(s[es]) {
            Some(skip_digits(s, es))
        } else {
            None
        }
    } else {
        Some(fe)
    }
}

/// The value of the digit run `s[i..j]`.
pub open spec fn digits_value(s: Seq<u8>, i: int, j: int) -> int
    decreases j - i,
{
    if j <= i {
        0
    } else {
        digits_value(s, i, j - 1) * 10 + (s[j - 1] - 0x30)
    }
}

pub proof fn lemma_digits_value_nonneg(s: Seq<u8>, i: int, j: int)
    requires
        forall|k: int| i <= k < j ==> is_digit(#[trigger] s[k]),
    ensures
        digits_value(s, i, j) >= 0,
    decreases j - i,
{
    if j > i {
        lemma_digits_value_nonneg(s, i, j - 1);
    }
}

/// More digits never shrink the value.
pub proof fn lemma_digits_value_monotone(s: Seq<u8>, i: int, j: int, j2: int)
    requires
        j <= j2,
        forall|k: int| i <= k < j2 ==> is_digit(#[trigger] s[k]),
    ensures
        digits_value(s, i, j2) >= digits_value(s, i, j),
    decreases j2 - j,
{
    if j2 > j {
        lemma_digits_value_monotone(s, i, j, j2 - 1);
        lemma_digits_value_nonneg(s, i, j2 - 1);
    }
}

/// An integer-syntax value — sign and digits only — within the range of a
/// 32-bit signed integer, and the index after its digits.
pub open spec fn spec_int_field(s: Seq<u8>, i: int) -> Option<(int, int)> {
    let neg = i < s.len() && s[i] == 0x2d;
    let st = if neg {
        i + 1
    } else {
        i
    };
    if st >= s.len() || !is_digit(s[st]) {
        Option::None
    } else {
        let end = if s[st] == 0x30 {
            st + 1
        } else {
            spec_skip_digits(s, st)
        };
        let v = digits_value(s, st, end);
        let sv = if neg {
            -v
        } else {
            v
        };
        if i32::MIN <= sv <= i32::MAX {
            Option::Some((sv, end))
        } else {
            Option::None
        }
    }
}

/// Digits between two positions, for loop bounds.
pub open spec fn all_digits(s: Seq<u8>, i: int, j: int) -> bool {
    forall|k: int| i <= k < j ==> is_digit(#[trigger] s[k])
}

pub proof fn lemma_skip_digits_all_digits(s: Seq<u8>, i: int)
    requires
        0 <= i <= s.len(),
    ensures
        all_digits(s, i, spec_skip_digits(s, i)),
        spec_skip_digits(s, i) == s.len() || !is_digit(s[spec_skip_digits(s, i)]),
    decreases s.len() - i,
{
    if i < s.len() && is_digit(s[i]) {
        lemma_skip_digits_all_digits(s, i + 1);
        let e = spec_skip_digits(s, i + 1);
        assert forall|k: int| i <= k < e implies is_digit(#[trigger] s[k]) by {
            if k > i {
                assert(all_digits(s, i + 1, e));
            }
        }
    }
}

/// Parse an integer-syntax field value into a 32-bit integer.
pub fn parse_int_field(s: &[u8], i: usize) -> (r: Option<(i32, usize)>)
    requires
        i <= s@.len(),
    ensures
        s@.len() <= usize::MAX,
        match spec_int_field(s@, i as int) {
            Option::None => r is None,
            Option::Some((v, j)) => {
                let t = r->0;
                &&& r is Some
                &&& t.0 == v
                &&& t.1 == j
                &&& i <= j <= s@.len()
            },
        },
{
    let neg = i < s.len() && s[i] == 0x2d;
    let st = if neg {
        i + 1
    } else {
        i
    };
    if st >= s.len() || !digit_byte(s[st]) {
        return None;
    }
    let end = if s[st] == 0x30 {
        st + 1
    } else {
        skip_digits(s, st)
    };
    proof {
        lemma_skip_digits_all_digits(s@, st as int);
        assert(all_digits(s@, st as int, end as int));
    }
    let mut acc: i64 = 0;
    let mut k = st;
    while k < end
        invariant
            i <= s@.len(),
            neg == (i < s@.len() && s@[i as int] == 0x2d),
            st as int == if neg {
                i + 1
            } else {
                i as int
            },
            st < s@.len(),
            is_digit(s@[st as int]),
            end as int == if s@[st as int] == 0x30 {
                st + 1
            } else {
                spec_skip_digits(s@, st as int)
            },
            st <= k <= end <= s@.len(),
            all_digits(s@, st as int, end as int),
            0 <= acc <= 0x8000_0000i64,
            acc == digits_value(s@, st as int, k as int),
        decreases end - k,
    {
        let d = s[k];
        proof {
            assert(is_digit(s@[k as int]));
        }
        let next = acc * 10 + ((d - 0x30) as i64);
        if next > 0x8000_0000i64 {
            proof {
                lemma_digits_value_monotone(s@, st as int, k as int + 1, end as int);
            }
            return None;
        }
        acc = next;
        k = k + 1;
    }
    if neg {
        if acc > 0x8000_0000i64 {
            return None;
        }
        let v = (-acc) as i32;
        Some((v, end))
    } else {
        if acc > 0x7FFF_FFFFi64 {
            return None;
        }
        Some((acc as i32, end))
    }
}

// ---------------------------------------------------------------------------
// Small byte utilities
// ---------------------------------------------------------------------------

/// Copy the bytes `s[i..j]`.
pub fn copy_range(s: &[u8], i: usize, j: usize) -> (r: Vec<u8>)
    requires
        i <= j <= s@.len(),
    ensures
        r@ == s@.subrange(i as int, j as int),
{
    let mut out: Vec<u8> = Vec::new();
    let mut k = i;
    while k < j
        invariant
            i <= k <= j <= s@.len(),
            out@ =~= s@.subrange(i as int, k as int),
        decreases j - k,
    {
        out.push(s[k]);
        proof {
            assert(out@ =~= s@.subrange(i as int, k as int + 1));
        }
        k = k + 1;
    }
    out
}

/// Whether two byte strings hold the same bytes.
pub fn bytes_eq(a: &[u8], b: &[u8]) -> (r: bool)
    ensures
        r == (a@ == b@),
{
    if a.len() != b.len() {
        proof {
            assert(a@.len() != b@.len());
        }
        return false;
    }
    let mut k: usize = 0;
    while k < a.len()
        invariant
            k <= a@.len(),
            a@.len() == b@.len(),
            forall|m: int| 0 <= m < k ==> a@[m] == b@[m],
        decreases a@.len() - k,
    {
        if a[k] != b[k] {
            proof {
                assert(a@[k as int] != b@[k as int]);
            }
            return false;
        }
        k = k + 1;
    }
    proof {
        assert(a@ =~= b@);
    }
    true
}

/// Whether the bytes `null` stand at `i`.
pub open spec fn spec_null_at(s: Seq<u8>, i: int) -> bool {
    i + 4 <= s.len() && s[i] == 0x6e && s[i + 1] == 0x75 && s[i + 2] == 0x6c && s[i + 3] == 0x6c
}

pub fn null_at(s: &[u8], i: usize) -> (r: bool)
    requires
        i <= s@.len(),
    ensures
        r == spec_null_at(s@, i as int),
        s@.len() <= usize::MAX,
{
    s.len() >= 4 && i <= s.len() - 4 && s[i] == 0x6e && s[i + 1] == 0x75 && s[i + 2] == 0x6c && s[i
        + 3] == 0x6c
}

// ---------------------------------------------------------------------------
// The record
// ---------------------------------------------------------------------------

pub open spec fn key_store() -> Seq<u8> {
    seq![0x73u8, 0x74u8, 0x6fu8, 0x72u8, 0x65u8]
}

pub open spec fn key_status() -> Seq<u8> {
    seq![0x73u8, 0x74u8, 0x61u8, 0x74u8, 0x75u8, 0x73u8]
}

pub open spec fn key_price() -> Seq<u8> {
    seq![0x70u8, 0x72u8, 0x69u8, 0x63u8, 0x65u8]
}

pub open spec fn key_count() -> Seq<u8> {
    seq![0x63u8, 0x6fu8, 0x75u8, 0x6eu8, 0x74u8]
}

pub open spec fn key_time() -> Seq<u8> {
    seq![0x74u8, 0x69u8, 0x6du8, 0x65u8]
}

pub open spec fn key_error() -> Seq<u8> {
    seq![0x65u8, 0x72u8, 0x72u8, 0x6fu8, 0x72u8]
}

pub open spec fn key_method() -> Seq<u8> {
    seq![0x6du8, 0x65u8, 0x74u8, 0x68u8, 0x6fu8, 0x64u8]
}

/// A record while its fields are collected: absent, or present with the
/// field's decoded content (`price` and `count` may be present and null).
#[verifier::ext_equal]
pub struct RawRecord {
    pub store: Option<Seq<u8>>,
    pub status: Option<Seq<u8>>,
    pub price: Option<Option<int>>,
    pub count: Option<Option<int>>,
    pub time: Option<Seq<u8>>,
    pub error: Option<Option<Seq<u8>>>,
    pub method: Option<Option<Seq<u8>>>,
}

pub open spec fn empty_rec() -> RawRecord {
    RawRecord {
        store: Option::None,
        status: Option::None,
        price: Option::None,
        count: Option::None,
        time: Option::None,
        error: Option::None,
        method: Option::None,
    }
}

/// How many fields have been collected.
pub open spec fn filled(acc: RawRecord) -> int {
    (if acc.store is Some {
        1int
    } else {
        0int
    }) + (if acc.status is Some {
        1int
    } else {
        0int
    }) + (if acc.price is Some {
        1int
    } else {
        0int
    }) + (if acc.count is Some {
        1int
    } else {
        0int
    }) + (if acc.time is Some {
        1int
    } else {
        0int
    }) + (if acc.error is Some {
        1int
    } else {
        0int
    }) + (if acc.method is Some {
        1int
    } else {
        0int
    })
}

/// One field's value, dispatched on the key: a repeated key, a key outside
/// the record schema, or an ill-formed value rejects the record.
pub open spec fn spec_parse_field(s: Seq<u8>, i: int, key: Seq<u8>, acc: RawRecord) -> Option<
    (RawRecord, int),
> {
    if key == key_store() {
        if acc.store is Some {
            Option::None
        } else if i < s.len() && s[i] == 0x22 {
            match spec_string_body(s, i + 1) {
                Option::None => Option::None,
                Option::Some((v, j)) => Option::Some(
                    (RawRecord { store: Option::Some(v), ..acc }, j),
                ),
            }
        } else {
            Option::None
        }
    } else if key == key_status() {
        if acc.status is Some {
            Option::None
        } else if i < s.len() && s[i] == 0x22 {
            match spec_string_body(s, i + 1) {
                Option::None => Option::None,
                Option::Some((v, j)) => Option::Some(
                    (RawRecord { status: Option::Some(v), ..acc }, j),
                ),
            }
        } else {
            Option::None
        }
    } else if key == key_time() {
        if acc.time is Some {
            Option::None
        } else {
            match spec_number_end(s, i) {
                Option::None => Option::None,
                Option::Some(j) => Option::Some(
                    (RawRecord { time: Option::Some(s.subrange(i, j)), ..acc }, j),
                ),
            }
        }
    } else if key == key_price() {
        if acc.price is Some {
            Option::None
        } else if spec_null_at(s, i) {
            Option::Some((RawRecord { price: Option::Some(Option::None), ..acc }, i + 4))
        } else {
            match spec_int_field(s, i) {
                Option::None => Option::None,
                Option::Some((v, j)) => Option::Some(
                    (RawRecord { price: Option::Some(Option::Some(v)), ..acc }, j),
                ),
            }
        }
    } else if key == key_count() {
        if acc.count is Some {
            Option::None
        } else if spec_null_at(s, i) {
            Option::Some((RawRecord { count: Option::Some(Option::None), ..acc }, i + 4))
        } else {
            match spec_int_field(s, i) {
                Option::None => Option::None,
                Option::Some((v, j)) => Option::Some(
                    (RawRecord { count: Option::Some(Option::Some(v)), ..acc }, j),
                ),
            }
        }
    } else if key == key_error() {
        if acc.error is Some {
            Option::None
        } else if spec_null_at(s, i) {
            Option::Some((RawRecord { error: Option::Some(Option::None), ..acc }, i + 4))
        } else if i < s.len() && s[i] == 0x22 {
            match spec_string_body(s, i + 1) {
                Option::None => Option::None,
                Option::Some((v, j)) => Option::Some(
                    (RawRecord { error: Option::Some(Option::Some(v)), ..acc }, j),
                ),
            }
        } else {
            Option::None
        }
    } else if key == key_method() {
        if acc.method is Some {
            Option::None
        } else if spec_null_at(s, i) {
            Option::Some((RawRecord { method: Option::Some(Option::None), ..acc }, i + 4))
        } else if i < s.len() && s[i] == 0x22 {
            match spec_string_body(s, i + 1) {
                Option::None => Option::None,
                Option::Some((v, j)) => Option::Some(
                    (RawRecord { method: Option::Some(Option::Some(v)), ..acc }, j),
                ),
            }
        } else {
            Option::None
        }
    } else {
        Option::None
    }
}

/// The members of the record from the first key at `i` to the closing
/// brace: the collected record and the index after the brace. At most
/// seven distinct keys can be collected, so the recursion is bounded.
pub open spec fn spec_parse_pairs(s: Seq<u8>, i: int, acc: RawRecord, fuel: nat) -> Option<
    (RawRecord, int),
>
    decreases fuel,
{
    if fuel == 0 {
        Option::None
    } else if i < s.len() && s[i] == 0x22 {
        match spec_string_body(s, i + 1) {
            Option::None => Option::None,
            Option::Some((key, j)) => {
                let c = spec_skip_ws(s, j);
                if c < s.len() && s[c] == 0x3a {
                    let v = spec_skip_ws(s, c + 1);
                    match spec_parse_field(s, v, key, acc) {
                        Option::None => Option::None,
                        Option::Some((acc2, m)) => {
                            let n = spec_skip_ws(s, m);
                            if n < s.len() && s[n] == 0x2c {
                                spec_parse_pairs(s, spec_skip_ws(s, n + 1), acc2, (fuel - 1) as nat)
                            } else if n < s.len() && s[n] == 0x7d {
                                Option::Some((acc2, n + 1))
                            } else {
                                Option::None
                            }
                        },
                    }
                } else {
                    Option::None
                }
            },
        }
    } else {
        Option::None
    }
}

/// The collected record of the whole worker output: one object, its
/// members in any order. Bytes after the closing brace are ignored.
pub open spec fn spec_parse_record_acc(s: Seq<u8>) -> Option<RawRecord> {
    let i = spec_skip_ws(s, 0);
    if i < s.len() && s[i] == 0x7b {
        let j = spec_skip_ws(s, i + 1);
        if j < s.len() && s[j] == 0x7d {
            Option::Some(empty_rec())
        } else {
            match spec_parse_pairs(s, j, empty_rec(), 8) {
                Option::None => Option::None,
                Option::Some((acc, _)) => Option::Some(acc),
            }
        }
    } else {
        Option::None
    }
}

/// The typed response of a collected record: `store`, `status` and `time`
/// must be present, and every text field must be well-formed UTF-8.
pub open spec fn spec_finalize(acc: RawRecord) -> Option<ScraperResponseView> {
    match (acc.store, acc.status, acc.time) {
        (Option::Some(st), Option::Some(su), Option::Some(tm)) => {
            let err_ok = match acc.error {
                Option::Some(Option::Some(b)) => valid_utf8(b),
                _ => true,
            };
            let meth_ok = match acc.method {
                Option::Some(Option::Some(b)) => valid_utf8(b),
                _ => true,
            };
            if valid_utf8(st) && valid_utf8(su) && valid_utf8(tm) && err_ok && meth_ok {
                Option::Some(
                    ScraperResponseView {
                        store: decode_utf8(st),
                        status: decode_utf8(su),
                        price: match acc.price {
                            Option::Some(p) => p,
                            Option::None => Option::None,
                        },
                        count: match acc.count {
                            Option::Some(c) => c,
                            Option::None => Option::None,
                        },
                        time_text: decode_utf8(tm),
                        error: match acc.error {
                            Option::Some(Option::Some(b)) => Option::Some(decode_utf8(b)),
                            _ => Option::None,
                        },
                        method: match acc.method {
                            Option::Some(Option::Some(b)) => Option::Some(decode_utf8(b)),
                            _ => Option::None,
                        },
                    },
                )
            } else {
                Option::None
            }
        },
        _ => Option::None,
    }
}

/// The worker record denoted by the raw output bytes, if they are
/// well-formed.
pub open spec fn spec_parse_worker_record(s: Seq<u8>) -> Option<ScraperResponseView> {
    match spec_parse_record_acc(s) {
        Option::None => Option::None,
        Option::Some(acc) => spec_finalize(acc),
    }
}

// ---------------------------------------------------------------------------
// The decoder
// ---------------------------------------------------------------------------

/// The record under collection.
pub struct RawRecordBuf {
    pub store: Option<Vec<u8>>,
    pub status: Option<Vec<u8>>,
    pub price: Option<Option<i32>>,
    pub count: Option<Option<i32>>,
    pub time: Option<Vec<u8>>,
    pub error: Option<Option<Vec<u8>>>,
    pub method: Option<Option<Vec<u8>>>,
}

pub open spec fn opt_bytes_view(o: Option<Vec<u8>>) -> Option<Seq<u8>> {
    match o {
        Option::Some(v) => Option::Some(v@),
        Option::None => Option::None,
    }
}

pub open spec fn opt2_bytes_view(o: Option<Option<Vec<u8>>>) -> Option<Option<Seq<u8>>> {
    match o {
        Option::Some(Option::Some(v)) => Option::Some(Option::Some(v@)),
        Option::Some(Option::None) => Option::Some(Option::None),
        Option::None => Option::None,
    }
}

pub open spec fn opt2_int_view(o: Option<Option<i32>>) -> Option<Option<int>> {
    match o {
        Option::Some(Option::Some(v)) => Option::Some(Option::Some(v as int)),
        Option::Some(Option::None) => Option::Some(Option::None),
        Option::None => Option::None,
    }
}

impl View for RawRecordBuf {
    type V = RawRecord;

    open spec fn view(&self) -> RawRecord {
        RawRecord {
            store: opt_bytes_view(self.store),
            status: opt_bytes_view(self.status),
            price: opt2_int_view(self.price),
            count: opt2_int_view(self.count),
            time: opt_bytes_view(self.time),
            error: opt2_bytes_view(self.error),
            method: opt2_bytes_view(self.method),
        }
    }
}

/// Relies on alloc's `String::from_utf8`: it succeeds exactly on the valid
/// UTF-8 byte sequences and returns the string that decodes them.
#[verifier::external_body]
fn string_from_utf8(bytes: Vec<u8>) -> (r: Option<String>)
    ensures
        r is Some <==> valid_utf8(bytes@),
        r is Some ==> r->0@ == decode_utf8(bytes@),
{
    String::from_utf8(bytes).ok()
}

fn key_is_store(key: &Vec<u8>) -> (r: bool)
    ensures
        r == (key@ == key_store()),
{
    let a = [0x73u8, 0x74, 0x6f, 0x72, 0x65];
    proof {
        assert(a@ =~= key_store());
    }
    bytes_eq(key.as_slice(), vstd::array::array_as_slice(&a))
}

fn key_is_status(key: &Vec<u8>) -> (r: bool)
    ensures
        r == (key@ == key_status()),
{
    let a = [0x73u8, 0x74, 0x61, 0x74, 0x75, 0x73];
    proof {
        assert(a@ =~= key_status());
    }
    bytes_eq(key.as_slice(), vstd::array::array_as_slice(&a))
}

fn key_is_time(key: &Vec<u8>) -> (r: bool)
    ensures
        r == (key@ == key_time()),
{
    let a = [0x74u8, 0x69, 0x6d, 0x65];
    proof {
        assert(a@ =~= key_time());
    }
    bytes_eq(key.as_slice(), vstd::array::array_as_slice(&a))
}

fn key_is_price(key: &Vec<u8>) -> (r: bool)
    ensures
        r == (key@ == key_price()),
{
    let a = [0x70u8, 0x72, 0x69, 0x63, 0x65];
    proof {
        assert(a@ =~= key_price());
    }
    bytes_eq(key.as_slice(), vstd::array::array_as_slice(&a))
}

fn key_is_count(key: &Vec<u8>) -> (r: bool)
    ensures
        r == (key@ == key_count()),
{
    let a = [0x63u8, 0x6f, 0x75, 0x6e, 0x74];
    proof {
        assert(a@ =~= key_count());
    }
    bytes_eq(key.as_slice(), vstd::array::array_as_slice(&a))
}

fn key_is_error(key: &Vec<u8>) -> (r: bool)
    ensures
        r == (key@ == key_error()),
{
    let a = [0x65u8, 0x72, 0x72, 0x6f, 0x72];
    proof {
        assert(a@ =~= key_error());
    }
    bytes_eq(key.as_slice(), vstd::array::array_as_slice(&a))
}

fn key_is_method(key: &Vec<u8>) -> (r: bool)
    ensures
        r == (key@ == key_method()),
{
    let a = [0x6du8, 0x65, 0x74, 0x68, 0x6f, 0x64];
    proof {
        assert(a@ =~= key_method());
    }
    bytes_eq(key.as_slice(), vstd::array::array_as_slice(&a))
}

/// Collect one member's value, dispatched on its key.
#[verifier::rlimit(100)]
#[verifier::spinoff_prover]
fn parse_field(s: &[u8], v: usize, key: &Vec<u8>, buf: &mut RawRecordBuf) -> (r: Option<usize>)
    requires
        v <= s@.len(),
    ensures
        match spec_parse_field(s@, v as int, key@, old(buf)@) {
            Option::None => r is None,
            Option::Some((acc2, m)) => {
                &&& r == Option::Some(m as usize)
                &&& final(buf)@ == acc2
                &&& v <= m <= s@.len()
            },
        },
        r is Some ==> filled(final(buf)@) == filled(old(buf)@) + 1,
{
    if key_is_store(key) {
        if buf.store.is_some() {
            return None;
        }
        if !(v < s.len() && s[v] == 0x22) {
            return None;
        }
        let br = parse_string_body(s, v + 1);
        if br.is_none() {
            return None;
        }
        let (bytes, j) = br.unwrap();
        buf.store = Some(bytes);
        return Some(j);
    } else if key_is_status(key) {
        if buf.status.is_some() {
            return None;
        }
        if !(v < s.len() && s[v] == 0x22) {
            return None;
        }
        let br = parse_string_body(s, v + 1);
        if br.is_none() {
            return None;
        }
        let (bytes, j) = br.unwrap();
        buf.status = Some(bytes);
        return Some(j);
    } else if key_is_time(key) {
        if buf.time.is_some() {
            return None;
        }
        let er = number_end(s, v);
        if er.is_none() {
            return None;
        }
        let j = er.unwrap();
        let bytes = copy_range(s, v, j);
        buf.time = Some(bytes);
        return Some(j);
    } else if key_is_price(key) {
        if buf.price.is_some() {
            return None;
        }
        if null_at(s, v) {
            buf.price = Some(None);
            return Some(v + 4);
        }
        let ir = parse_int_field(s, v);
        if ir.is_none() {
            return None;
        }
        let (val, j) = ir.unwrap();
        buf.price = Some(Some(val));
        return Some(j);
    } else if key_is_count(key) {
        if buf.count.is_some() {
            return None;
        }
        if null_at(s, v) {
            buf.count = Some(None);
            return Some(v + 4);
        }
        let ir = parse_int_field(s, v);
        if ir.is_none() {
            return None;
        }
        let (val, j) = ir.unwrap();
        buf.count = Some(Some(val));
        return Some(j);
    } else if key_is_error(key) {
        if buf.error.is_some() {
            return None;
        }
        if null_at(s, v) {
            buf.error = Some(None);
            return Some(v + 4);
        }
        if !(v < s.len() && s[v] == 0x22) {
            return None;
        }
        let br = parse_string_body(s, v + 1);
        if br.is_none() {
            return None;
        }
        let (bytes, j) = br.unwrap();
        buf.error = Some(Some(bytes));
        return Some(j);
    } else if key_is_method(key) {
        if buf.method.is_some() {
            return None;
        }
        if null_at(s, v) {
            buf.method = Some(None);
            return Some(v + 4);
        }
        if !(v < s.len() && s[v] == 0x22) {
            return None;
        }
        let br = parse_string_body(s, v + 1);
        if br.is_none() {
            return None;
        }
        let (bytes, j) = br.unwrap();
        buf.method = Some(Some(bytes));
        return Some(j);
    } else {
        None
    }
}

/// The typed response of a collected record; see [`spec_finalize`].
fn finalize_record(buf: RawRecordBuf) -> (r: Option<ScraperResponse>)
    ensures
        match spec_finalize(buf@) {
            Option::None => r is None,
            Option::Some(v) => r is Some && r->0@ == v,
        },
{
    let RawRecordBuf { store, status, price, count, time, error, method } = buf;
    if store.is_none() || status.is_none() || time.is_none() {
        return None;
    }
    let store_s = string_from_utf8(store.unwrap());
    if store_s.is_none() {
        return None;
    }
    let status_s = string_from_utf8(status.unwrap());
    if status_s.is_none() {
        return None;
    }
    let time_s = string_from_utf8(time.unwrap());
    if time_s.is_none() {
        return None;
    }
    let error_f: Option<String>;
    if let Some(eopt) = error {
        if let Some(b) = eopt {
            let e = string_from_utf8(b);
            if e.is_none() {
                return None;
            }
            error_f = Some(e.unwrap());
        } else {
            error_f = None;
        }
    } else {
        error_f = None;
    }
    let method_f: Option<String>;
    if let Some(mopt) = method {
        if let Some(b) = mopt {
            let m = string_from_utf8(b);
            if m.is_none() {
                return None;
            }
            method_f = Some(m.unwrap());
        } else {
            method_f = None;
        }
    } else {
        method_f = None;
    }
    let price_f: Option<i32> = match price {
        Some(p) => p,
        None => None,
    };
    let count_f: Option<i32> = match count {
        Some(c) => c,
        None => None,
    };
    Some(
        ScraperResponse {
            store: store_s.unwrap(),
            status: status_s.unwrap(),
            price: price_f,
            count: count_f,
            time_text: time_s.unwrap(),
            error: error_f,
            method: method_f,
        },
    )
}

/// Decode the single structured record a worker emits: the typed response,
/// or nothing if the output is not a well-formed record of the protocol.
pub fn parse_worker_record(s: &[u8]) -> (r: Option<ScraperResponse>)
    ensures
        match spec_parse_worker_record(s@) {
            Option::None => r is None,
            Option::Some(v) => r is Some && r->0@ == v,
        },
{
    let i0 = skip_ws(s, 0);
    if !(i0 < s.len() && s[i0] == 0x7b) {
        return None;
    }
    let j0 = skip_ws(s, i0 + 1);
    if j0 < s.len() && s[j0] == 0x7d {
        return None;
    }
    let mut buf = RawRecordBuf {
        store: None,
        status: None,
        price: None,
        count: None,
        time: None,
        error: None,
        method: None,
    };
    proof {
        assert(buf@ =~= empty_rec());
    }
    let mut pos = j0;
    loop
        invariant
            pos <= s@.len(),
            0 <= filled(buf@) <= 7,
            spec_parse_pairs(s@, j0 as int, empty_rec(), 8) == spec_parse_pairs(
                s@,
                pos as int,
                buf@,
                (8 - filled(buf@)) as nat,
            ),
            spec_parse_record_acc(s@) == match spec_parse_pairs(s@, j0 as int, empty_rec(), 8) {
                Option::None => Option::None::<RawRecord>,
                Option::Some((acc, end)) => Option::Some(acc),
            },
        decreases s@.len() - pos,
    {
        if !(pos < s.len() && s[pos] == 0x22) {
            return None;
        }
        let kr = parse_string_body(s, pos + 1);
        if kr.is_none() {
            return None;
        }
        let (key, after_key) = kr.unwrap();
        let c = skip_ws(s, after_key);
        if !(c < s.len() && s[c] == 0x3a) {
            return None;
        }
        let v = skip_ws(s, c + 1);
        let ghost acc_before = buf@;
        let fr = parse_field(s, v, &key, &mut buf);
        if fr.is_none() {
            return None;
        }
        let m = fr.unwrap();
        let n = skip_ws(s, m);
        if !(n < s.len()) {
            return None;
        }
        if s[n] == 0x2c {
            let next = skip_ws(s, n + 1);
            proof {
                assert(spec_parse_pairs(s@, pos as int, acc_before, (8 - filled(acc_before)) as nat)
                    == spec_parse_pairs(s@, next as int, buf@, (8 - filled(buf@)) as nat));
            }
            pos = next;
        } else if s[n] == 0x7d {
            proof {
                assert(spec_parse_pairs(s@, pos as int, acc_before, (8 - filled(acc_before)) as nat)
                    == Option::Some((buf@, n + 1 as int)));
            }
            return finalize_record(buf);
        } else {
            return None;
        }
    }
}

} // verus!
