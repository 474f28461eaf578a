//! JSON parser: positions into a character sequence, recursive descent.
//!
//! The specification-level parser below defines exactly what the executable
//! parser accepts: the grammar of the serializer in `json_text`, plus
//! whitespace between tokens and the standard string escapes. Numbers must be
//! integers that fit in a signed 64-bit value; fractional numbers, exponents
//! and leading zeros are rejected, as are unpaired surrogate escapes.
//!
//! Positions only grow during parsing. Where the definition recurses on a
//! position computed by another parse step, it guards on growth so that the
//! recursion is visibly bounded; the guarded branch is never taken.

use vstd::prelude::*;
use vstd::utf8::{decode_utf8, is_scalar, valid_utf8};
use crate::json::{JsonMemberVal, JsonVal, JsonValue};
use crate::text::{char_from_u32, chars_of, push_char, string_from_utf8};

verus! {

/// JSON whitespace.
pub open spec fn is_ws(c: char) -> bool {
    c == ' ' || c == '\t' || c == '\n' || c == '\r'
}

/// First position at or after `i` that does not hold whitespace.
pub open spec fn skip_ws(s: Seq<char>, i: int) -> int
    decreases s.len() - i,
{
    if 0 <= i < s.len() && is_ws(s[i]) {
        skip_ws(s, i + 1)
    } else {
        i
    }
}

/// Value of a decimal digit character, or -1.
pub open spec fn dec_val_of(c: char) -> int {
    if 48 <= c as u32 <= 57 {
        c as u32 - 48
    } else {
        -1
    }
}

/// Value of a hexadecimal digit character, or -1.
pub open spec fn hex_val_of(c: char) -> int {
    if 48 <= c as u32 <= 57 {
        c as u32 - 48
    } else if 97 <= c as u32 <= 102 {
        c as u32 - 87
    } else if 65 <= c as u32 <= 70 {
        c as u32 - 55
    } else {
        -1
    }
}

/// Value of the four hexadecimal digits at `i`, or -1.
pub open spec fn hex4_val(s: Seq<char>, i: int) -> int
    recommends
        0 <= i,
        i + 4 <= s.len(),
{
    if hex_val_of(s[i]) < 0 || hex_val_of(s[i + 1]) < 0 || hex_val_of(s[i + 2]) < 0 || hex_val_of(
        s[i + 3],
    ) < 0 {
        -1
    } else {
        hex_val_of(s[i]) * 4096 + hex_val_of(s[i + 1]) * 256 + hex_val_of(s[i + 2]) * 16
            + hex_val_of(s[i + 3])
    }
}

/// First position at or after `i` that does not hold a decimal digit.
pub open spec fn digits_end(s: Seq<char>, i: int) -> int
    decreases s.len() - i,
{
    if 0 <= i < s.len() && dec_val_of(s[i]) >= 0 {
        digits_end(s, i + 1)
    } else {
        i
    }
}

/// Value of the decimal digits in positions `i` (inclusive) to `e`
/// (exclusive).
pub open spec fn digits_val(s: Seq<char>, i: int, e: int) -> int
    decreases e - i,
{
    if i >= e {
        0
    } else {
        digits_val(s, i, e - 1) * 10 + dec_val_of(s[e - 1])
    }
}

/// Characters (after escape processing) of a string body that starts at `i`
/// (just after the opening quote), with the position just after the closing
/// quote.
pub open spec fn parse_str_chars(s: Seq<char>, i: int) -> Option<(Seq<char>, int)>
    decreases s.len() - i,
{
    if i < 0 || i >= s.len() {
        Option::None
    } else if s[i] == '"' {
        Option::Some((Seq::empty(), i + 1))
    } else if s[i] == '\\' {
        if i + 2 > s.len() {
            Option::None
        } else {
            let c = s[i + 1];
            if c == 'u' {
                if i + 6 > s.len() {
                    Option::None
                } else {
                    let h = hex4_val(s, i + 2);
                    if h < 0 {
                        Option::None
                    } else if 0xD800 <= h < 0xDC00 {
                        // High surrogate: a low surrogate escape must follow.
                        if i + 12 > s.len() || s[i + 6] != '\\' || s[i + 7] != 'u' {
                            Option::None
                        } else {
                            let l = hex4_val(s, i + 8);
                            if !(0xDC00 <= l < 0xE000) {
                                Option::None
                            } else {
                                let cp = 0x10000 + (h - 0xD800) * 0x400 + (l - 0xDC00);
                                match parse_str_chars(s, i + 12) {
                                    Option::Some((cs, j)) => Option::Some(
                                        (seq![(cp as u32) as char] + cs, j),
                                    ),
                                    Option::None => Option::None,
                                }
                            }
                        }
                    } else if 0xDC00 <= h < 0xE000 {
                        Option::None
                    } else {
                        match parse_str_chars(s, i + 6) {
                            Option::Some((cs, j)) => Option::Some(
                                (seq![(h as u32) as char] + cs, j),
                            ),
                            Option::None => Option::None,
                        }
                    }
                }
            } else {
                let e = if c == '"' {
                    Option::Some('"')
                } else if c == '\\' {
                    Option::Some('\\')
                } else if c == '/' {
                    Option::Some('/')
                } else if c == 'b' {
                    Option::Some('\u{8}')
                } else if c == 'f' {
                    Option::Some('\u{c}')
                } else if c == 'n' {
                    Option::Some('\n')
                } else if c == 'r' {
                    Option::Some('\r')
                } else if c == 't' {
                    Option::Some('\t')
                } else {
                    Option::None
                };
                match e {
                    Option::Some(ec) => match parse_str_chars(s, i + 2) {
                        Option::Some((cs, j)) => Option::Some((seq![ec] + cs, j)),
                        Option::None => Option::None,
                    },
                    Option::None => Option::None,
                }
            }
        }
    } else if (s[i] as u32) < 32 {
        Option::None
    } else {
        match parse_str_chars(s, i + 1) {
            Option::Some((cs, j)) => Option::Some((seq![s[i]] + cs, j)),
            Option::None => Option::None,
        }
    }
}

/// Integer literal at `i`: optional minus sign, then digits without a leading
/// zero, not followed by a fraction or exponent, in the signed 64-bit range.
pub open spec fn parse_int(s: Seq<char>, i: int) -> Option<(JsonVal, int)> {
    if i < 0 || i >= s.len() {
        Option::None
    } else {
        let neg = s[i] == '-';
        let j = if neg {
            i + 1
        } else {
            i
        };
        if j >= s.len() || dec_val_of(s[j]) < 0 {
            Option::None
        } else {
            let e = digits_end(s, j);
            if s[j] == '0' && e != j + 1 {
                Option::None
            } else if e < s.len() && (s[e] == '.' || s[e] == 'e' || s[e] == 'E') {
                Option::None
            } else {
                let v = digits_val(s, j, e);
                if neg {
                    if v > 0x8000000000000000 {
                        Option::None
                    } else {
                        Option::Some((JsonVal::Int(-v), e))
                    }
                } else {
                    if v > 0x7FFFFFFFFFFFFFFF {
                        Option::None
                    } else {
                        Option::Some((JsonVal::Int(v), e))
                    }
                }
            }
        }
    }
}

/// Value at `i`, with the position just after it.
pub open spec fn parse_val(s: Seq<char>, i: int) -> Option<(JsonVal, int)>
    decreases s.len() - i, 2int,
{
    if i < 0 || i >= s.len() {
        Option::None
    } else {
        let c = s[i];
        if c == 'n' {
            if i + 4 <= s.len() && s[i + 1] == 'u' && s[i + 2] == 'l' && s[i + 3] == 'l' {
                Option::Some((JsonVal::Null, i + 4))
            } else {
                Option::None
            }
        } else if c == 't' {
            if i + 4 <= s.len() && s[i + 1] == 'r' && s[i + 2] == 'u' && s[i + 3] == 'e' {
                Option::Some((JsonVal::Bool(true), i + 4))
            } else {
                Option::None
            }
        } else if c == 'f' {
            if i + 5 <= s.len() && s[i + 1] == 'a' && s[i + 2] == 'l' && s[i + 3] == 's' && s[i + 4]
                == 'e' {
                Option::Some((JsonVal::Bool(false), i + 5))
            } else {
                Option::None
            }
        } else if c == '"' {
            match parse_str_chars(s, i + 1) {
                Option::Some((cs, j)) => Option::Some((JsonVal::Str(cs), j)),
                Option::None => Option::None,
            }
        } else if c == '-' || dec_val_of(c) >= 0 {
            parse_int(s, i)
        } else if c == '[' {
            let j = skip_ws(s, i + 1);
            if j < s.len() && s[j] == ']' {
                Option::Some((JsonVal::Arr(Seq::empty()), j + 1))
            } else if i < j <= s.len() {
                match parse_elems(s, j) {
                    Option::Some((vs, e)) => Option::Some((JsonVal::Arr(vs), e)),
                    Option::None => Option::None,
                }
            } else {
                Option::None
            }
        } else if c == '{' {
            let j = skip_ws(s, i + 1);
            if j < s.len() && s[j] == '}' {
                Option::Some((JsonVal::Obj(Seq::empty()), j + 1))
            } else if i < j <= s.len() {
                match parse_members(s, j) {
                    Option::Some((ms, e)) => Option::Some((JsonVal::Obj(ms), e)),
                    Option::None => Option::None,
                }
            } else {
                Option::None
            }
        } else {
            Option::None
        }
    }
}

/// Elements of a non-empty array from the first element at `i` through the
/// closing bracket, with the position just after it.
pub open spec fn parse_elems(s: Seq<char>, i: int) -> Option<(Seq<JsonVal>, int)>
    decreases s.len() - i, 3int,
{
    if i < 0 || i >= s.len() {
        Option::None
    } else {
        match parse_val(s, i) {
            Option::Some((v, j)) => {
                let k = skip_ws(s, j);
                if k >= s.len() {
                    Option::None
                } else if s[k] == ']' {
                    Option::Some((seq![v], k + 1))
                } else if s[k] == ',' {
                    let e = skip_ws(s, k + 1);
                    if i < e <= s.len() {
                        match parse_elems(s, e) {
                            Option::Some((vs, p)) => Option::Some((seq![v] + vs, p)),
                            Option::None => Option::None,
                        }
                    } else {
                        Option::None
                    }
                } else {
                    Option::None
                }
            },
            Option::None => Option::None,
        }
    }
}

/// Members of a non-empty object from the first key at `i` through the
/// closing brace, with the position just after it.
pub open spec fn parse_members(s: Seq<char>, i: int) -> Option<(Seq<JsonMemberVal>, int)>
    decreases s.len() - i, 3int,
{
    if i < 0 || i >= s.len() || s[i] != '"' {
        Option::None
    } else {
        match parse_str_chars(s, i + 1) {
            Option::Some((key, j)) => {
                let c = skip_ws(s, j);
                if c >= s.len() || s[c] != ':' {
                    Option::None
                } else {
                    let vstart = skip_ws(s, c + 1);
                    if !(i < vstart <= s.len()) {
                        Option::None
                    } else {
                        match parse_val(s, vstart) {
                            Option::Some((v, j2)) => {
                                let k = skip_ws(s, j2);
                                if k >= s.len() {
                                    Option::None
                                } else if s[k] == '}' {
                                    Option::Some((seq![JsonMemberVal { key, val: v }], k + 1))
                                } else if s[k] == ',' {
                                    let e = skip_ws(s, k + 1);
                                    if i < e <= s.len() {
                                        match parse_members(s, e) {
                                            Option::Some((ms, p)) => Option::Some(
                                                (seq![JsonMemberVal { key, val: v }] + ms, p),
                                            ),
                                            Option::None => Option::None,
                                        }
                                    } else {
                                        Option::None
                                    }
                                } else {
                                    Option::None
                                }
                            },
                            Option::None => Option::None,
                        }
                    }
                }
            },
            Option::None => Option::None,
        }
    }
}

/// The document parsed from a whole text: one value, possibly surrounded by
/// whitespace.
pub open spec fn parse_doc(s: Seq<char>) -> Option<JsonVal> {
    let i = skip_ws(s, 0);
    match parse_val(s, i) {
        Option::Some((m, j)) => {
            if skip_ws(s, j) == s.len() {
                Option::Some(m)
            } else {
                Option::None
            }
        },
        Option::None => Option::None,
    }
}

/// JSON whitespace, executable form.
fn is_ws_x(c: char) -> (r: bool)
    ensures
        r == is_ws(c),
{
    c == ' ' || c == '\t' || c == '\n' || c == '\r'
}

/// First position at or after `i` without whitespace, executable form.
fn skip_ws_x(cs: &Vec<char>, i: usize) -> (r: usize)
    requires
        i <= cs@.len(),
    ensures
        r as int == skip_ws(cs@, i as int),
        i <= r <= cs@.len(),
{
    let mut j = i;
    while j < cs.len() && is_ws_x(cs[j])
        invariant
            i <= j <= cs@.len(),
            skip_ws(cs@, i as int) == skip_ws(cs@, j as int),
        decreases cs@.len() - j,
    {
        j = j + 1;
    }
    j
}

/// Value of a hexadecimal digit character, or -1, executable form.
fn hex_val_x(c: char) -> (v: i8)
    ensures
        v as int == hex_val_of(c),
{
    let u = c as u32;
    if 48 <= u && u <= 57 {
        (u - 48) as i8
    } else if 97 <= u && u <= 102 {
        (u - 87) as i8
    } else if 65 <= u && u <= 70 {
        (u - 55) as i8
    } else {
        -1
    }
}

/// Prefix characters prepended to a string-body parse that is still pending.
pub open spec fn str_prepend(
    pre: Seq<char>,
    o: Option<(Seq<char>, int)>,
) -> Option<(Seq<char>, int)> {
    match o {
        Option::Some((cs, e)) => Option::Some((pre + cs, e)),
        Option::None => Option::None,
    }
}

/// String body at `i`, executable form.
#[verifier::rlimit(100)]
fn parse_str_chars_x(cs: &Vec<char>, i: usize) -> (r: Option<(String, usize)>)
    ensures
        match (parse_str_chars(cs@, i as int), r) {
            (Option::Some((m, j)), Option::Some((v, jr))) => v@ == m && jr as int == j && jr
                <= cs@.len(),
            (Option::None, Option::None) => true,
            _ => false,
        },
{
    let s = cs;
    let mut out = String::new();
    let mut j = i;
    proof {
        assert(str_prepend(out@, parse_str_chars(cs@, i as int)) == parse_str_chars(
            cs@,
            i as int,
        )) by {
            match parse_str_chars(cs@, i as int) {
                Option::Some((m, e)) => {
                    assert(Seq::<char>::empty() + m =~= m);
                },
                Option::None => {},
            }
        }
    }
    loop
        invariant
            i <= j,
            j <= cs@.len() || parse_str_chars(cs@, j as int) is None,
            parse_str_chars(cs@, i as int) == str_prepend(out@, parse_str_chars(cs@, j as int)),
        decreases cs@.len() - j,
    {
        if j >= cs.len() {
            return Option::None;
        }
        let ghost pre = out@;
        let ghost j0 = j as int;
        let c = cs[j];
        if c == '"' {
            proof {
                assert(pre + Seq::<char>::empty() =~= pre);
            }
            return Option::Some((out, j + 1));
        } else if c == '\\' {
            if cs.len() - j < 2 {
                return Option::None;
            }
            let c2 = cs[j + 1];
            if c2 == 'u' {
                if cs.len() - j < 6 {
                    return Option::None;
                }
                let h0 = hex_val_x(cs[j + 2]);
                let h1 = hex_val_x(cs[j + 3]);
                let h2 = hex_val_x(cs[j + 4]);
                let h3 = hex_val_x(cs[j + 5]);
                if h0 < 0 || h1 < 0 || h2 < 0 || h3 < 0 {
                    return Option::None;
                }
                let h: u32 = (h0 as u32) * 4096 + (h1 as u32) * 256 + (h2 as u32) * 16 + (
                h3 as u32);
                proof {
                    assert(h as int == hex4_val(cs@, j0 + 2));
                }
                if 0xD800 <= h && h < 0xDC00 {
                    if cs.len() - j < 12 {
                        return Option::None;
                    }
                    if !(cs[j + 6] == '\\' && cs[j + 7] == 'u') {
                        return Option::None;
                    }
                    let l0 = hex_val_x(cs[j + 8]);
                    let l1 = hex_val_x(cs[j + 9]);
                    let l2 = hex_val_x(cs[j + 10]);
                    let l3 = hex_val_x(cs[j + 11]);
                    if l0 < 0 || l1 < 0 || l2 < 0 || l3 < 0 {
                        return Option::None;
                    }
                    let l: u32 = (l0 as u32) * 4096 + (l1 as u32) * 256 + (l2 as u32) * 16 + (
                    l3 as u32);
                    proof {
                        assert(l as int == hex4_val(cs@, j0 + 8));
                    }
                    if !(0xDC00 <= l && l < 0xE000) {
                        return Option::None;
                    }
                    let cp: u32 = 0x10000 + (h - 0xD800) * 0x400 + (l - 0xDC00);
                    proof {
                        assert(is_scalar(cp));
                    }
                    let ec = char_from_u32(cp);
                    push_char(&mut out, ec);
                    j = j + 12;
                    proof {
                        let tail = parse_str_chars(cs@, j0);
                        assert(out@ =~= pre.push(ec));
                        assert(seq![(cp as u32) as char] =~= seq![ec]) by {
                            vstd::utf8::char_u32_cast(ec, cp);
                        }
                        match parse_str_chars(cs@, j as int) {
                            Option::Some((m2, e2)) => {
                                assert(tail == Option::Some((seq![ec] + m2, e2)));
                                assert(pre + (seq![ec] + m2) =~= pre.push(ec) + m2);
                            },
                            Option::None => {},
                        }
                    }
                } else if 0xDC00 <= h && h < 0xE000 {
                    return Option::None;
                } else {
                    proof {
                        assert(is_scalar(h));
                    }
                    let ec = char_from_u32(h);
                    push_char(&mut out, ec);
                    j = j + 6;
                    proof {
                        let tail = parse_str_chars(cs@, j0);
                        assert(out@ =~= pre.push(ec));
                        assert(seq![(hex4_val(cs@, j0 + 2) as u32) as char] =~= seq![ec]) by {
                            vstd::utf8::char_u32_cast(ec, h);
                        }
                        match parse_str_chars(cs@, j as int) {
                            Option::Some((m2, e2)) => {
                                assert(tail == Option::Some((seq![ec] + m2, e2)));
                                assert(pre + (seq![ec] + m2) =~= pre.push(ec) + m2);
                            },
                            Option::None => {},
                        }
                    }
                }
            } else {
                let ec: char = if c2 == '"' {
                    '"'
                } else if c2 == '\\' {
                    '\\'
                } else if c2 == '/' {
                    '/'
                } else if c2 == 'b' {
                    '\u{8}'
                } else if c2 == 'f' {
                    '\u{c}'
                } else if c2 == 'n' {
                    '\n'
                } else if c2 == 'r' {
                    '\r'
                } else if c2 == 't' {
                    '\t'
                } else {
                    ' '
                };
                if !(c2 == '"' || c2 == '\\' || c2 == '/' || c2 == 'b' || c2 == 'f' || c2 == 'n'
                    || c2 == 'r' || c2 == 't') {
                    return Option::None;
                }
                push_char(&mut out, ec);
                j = j + 2;
                proof {
                    let tail = parse_str_chars(cs@, j0);
                    assert(out@ =~= pre.push(ec));
                    match parse_str_chars(cs@, j as int) {
                        Option::Some((m2, e2)) => {
                            assert(tail == Option::Some((seq![ec] + m2, e2)));
                            assert(pre + (seq![ec] + m2) =~= pre.push(ec) + m2);
                        },
                        Option::None => {},
                    }
                }
            }
        } else if (c as u32) < 32 {
            return Option::None;
        } else {
            push_char(&mut out, c);
            j = j + 1;
            proof {
                let tail = parse_str_chars(cs@, j0);
                assert(out@ =~= pre.push(c));
                match parse_str_chars(cs@, j as int) {
                    Option::Some((m2, e2)) => {
                        assert(tail == Option::Some((seq![c] + m2, e2)));
                        assert(pre + (seq![c] + m2) =~= pre.push(c) + m2);
                    },
                    Option::None => {},
                }
            }
        }
    }
}

proof fn lemma_digits_val_nonneg(s: Seq<char>, i: int, e: int)
    requires
        forall|k: int| i <= k < e ==> dec_val_of(#[trigger] s[k]) >= 0,
    ensures
        digits_val(s, i, e) >= 0,
    decreases e - i,
{
    if i < e {
        lemma_digits_val_nonneg(s, i, e - 1);
    }
}

/// Appending digits never shrinks the scanned value.
proof fn lemma_digits_val_mono(s: Seq<char>, i: int, k: int, e: int)
    requires
        i <= k <= e,
        forall|t: int| i <= t < e ==> dec_val_of(#[trigger] s[t]) >= 0,
    ensures
        digits_val(s, i, e) >= digits_val(s, i, k),
    decreases e - k,
{
    if k < e {
        lemma_digits_val_mono(s, i, k, e - 1);
        lemma_digits_val_nonneg(s, i, e - 1);
        assert(digits_val(s, i, e) == digits_val(s, i, e - 1) * 10 + dec_val_of(s[e - 1]));
        assert(digits_val(s, i, e - 1) * 10 >= digits_val(s, i, e - 1)) by (nonlinear_arith)
            requires
                digits_val(s, i, e - 1) >= 0,
        ;
    }
}

/// Integer literal at `i`, executable form.
fn parse_int_x(cs: &Vec<char>, i: usize) -> (r: Option<(i64, usize)>)
    requires
        i < cs@.len(),
    ensures
        match (parse_int(cs@, i as int), r) {
            (Option::Some((m, j)), Option::Some((v, jr))) => m == JsonVal::Int(v as int) && jr
                as int == j && jr <= cs@.len(),
            (Option::None, Option::None) => true,
            _ => false,
        },
{
    let ghost s = cs@;
    let n = cs.len();
    let neg = cs[i] == '-';
    let j: usize = if neg {
        i + 1
    } else {
        i
    };
    if j >= n {
        return Option::None;
    }
    let d0 = cs[j];
    let d0u = d0 as u32;
    if !(48 <= d0u && d0u <= 57) {
        proof {
            assert(dec_val_of(s[j as int]) < 0);
        }
        return Option::None;
    }
    proof {
        assert(dec_val_of(s[j as int]) >= 0);
    }
    // Scan the digits, watching for overflow of the signed 64-bit range.
    let limit: u64 = if neg {
        0x8000000000000000
    } else {
        0x7FFFFFFFFFFFFFFF
    };
    let mut acc: u64 = 0;
    let mut j2: usize = j;
    while j2 < cs.len() && 48 <= cs[j2] as u32 && cs[j2] as u32 <= 57
        invariant
            i < cs@.len(),
            s == cs@,
            j <= j2 <= cs@.len(),
            j < cs@.len(),
            acc as int == digits_val(s, j as int, j2 as int),
            acc <= limit,
            limit == if neg { 0x8000000000000000u64 } else { 0x7FFFFFFFFFFFFFFFu64 },
            neg == (s[i as int] == '-'),
            j as int == if neg { i + 1 } else { i as int },
            dec_val_of(s[j as int]) >= 0,
            forall|t: int| j <= t < j2 ==> dec_val_of(#[trigger] s[t]) >= 0,
        decreases cs@.len() - j2,
    {
        let d = (cs[j2] as u32 - 48) as u64;
        proof {
            assert(d as int == dec_val_of(s[j2 as int]));
        }
        if acc > (limit - d) / 10 {
            // The value already exceeds the representable range; the digits
            // that remain can only make it larger.
            proof {
                let e = digits_end(s, j as int);
                assert(forall|t: int|
                    j <= t < e ==> dec_val_of(#[trigger] s[t]) >= 0) by {
                    lemma_digits_end_digits(s, j as int);
                }
                lemma_digits_end_low(s, j as int, j2 as int);
                assert(j2 < e);
                assert(acc * 10 + d > limit) by (nonlinear_arith)
                    requires
                        acc > (limit - d) / 10,
                        d < 10,
                        0 <= d,
                        acc >= 0,
                        limit >= 0,
                ;
                assert(digits_val(s, j as int, j2 + 1) == acc * 10 + d);
                lemma_digits_val_mono(s, j as int, j2 + 1, e);
                assert(digits_val(s, j as int, e) > limit);
            }
            return Option::None;
        }
        proof {
            assert(acc * 10 + d <= limit) by (nonlinear_arith)
                requires
                    acc <= (limit - d) / 10,
                    d < 10,
                    0 <= d,
                    acc >= 0,
                    limit >= 10,
            ;
        }
        acc = acc * 10 + d;
        j2 = j2 + 1;
    }
    proof {
        assert(j2 == cs@.len() || dec_val_of(s[j2 as int]) < 0);
        lemma_digits_end_exact(s, j as int, j2 as int);
    }
    // Reject a leading zero on a multi-digit number.
    if d0u == 48 && j2 != j + 1 {
        proof {
            assert(s[j as int] == '0') by {
                vstd::utf8::char_u32_cast(d0, 48);
                vstd::utf8::char_u32_cast('0', 48);
            }
        }
        return Option::None;
    }
    // Reject fractions and exponents.
    if j2 < cs.len() && (cs[j2] == '.' || cs[j2] == 'e' || cs[j2] == 'E') {
        return Option::None;
    }
    if neg {
        if acc == 0x8000000000000000 {
            Option::Some((-0x7FFFFFFFFFFFFFFF - 1, j2))
        } else {
            Option::Some((-(acc as i64), j2))
        }
    } else {
        Option::Some((acc as i64, j2))
    }
}

/// Every position between `i` and the end of the digit run holds a digit.
proof fn lemma_digits_end_digits(s: Seq<char>, i: int)
    ensures
        forall|t: int| i <= t < digits_end(s, i) ==> dec_val_of(#[trigger] s[t]) >= 0,
        digits_end(s, i) >= i,
    decreases s.len() - i,
{
    if 0 <= i < s.len() && dec_val_of(s[i]) >= 0 {
        lemma_digits_end_digits(s, i + 1);
    }
}

/// A digit position lies strictly before the end of its digit run.
proof fn lemma_digits_end_low(s: Seq<char>, i: int, k: int)
    requires
        i <= k < s.len(),
        0 <= i,
        dec_val_of(s[k]) >= 0,
        forall|t: int| i <= t < k ==> dec_val_of(#[trigger] s[t]) >= 0,
    ensures
        digits_end(s, i) > k,
    decreases k - i,
{
    if i < k {
        lemma_digits_end_low(s, i + 1, k);
    } else {
        lemma_digits_end_digits(s, i + 1);
    }
}

/// A digit run bounded by a non-digit ends exactly there.
proof fn lemma_digits_end_exact(s: Seq<char>, i: int, e: int)
    requires
        0 <= i <= e <= s.len(),
        forall|t: int| i <= t < e ==> dec_val_of(#[trigger] s[t]) >= 0,
        e == s.len() || dec_val_of(s[e]) < 0,
    ensures
        digits_end(s, i) == e,
    decreases e - i,
{
    if i < e {
        lemma_digits_end_exact(s, i + 1, e);
    }
}

/// The executable outcome mirrors the specification outcome, for one value.
pub open spec fn val_rel(o: Option<(JsonVal, int)>, r: Option<(JsonValue, usize)>) -> bool {
    match (o, r) {
        (Option::Some((m, j)), Option::Some((v, jr))) => v@ == m && jr as int == j,
        (Option::None, Option::None) => true,
        _ => false,
    }
}

/// The executable outcome mirrors the specification outcome, for array
/// elements.
pub open spec fn elems_rel(
    o: Option<(Seq<JsonVal>, int)>,
    r: Option<(Vec<JsonValue>, usize)>,
) -> bool {
    match (o, r) {
        (Option::Some((ms, j)), Option::Some((vs, jr))) => {
            &&& vs@.len() == ms.len()
            &&& forall|k: int| 0 <= k < ms.len() ==> vs@[k]@ == #[trigger] ms[k]
            &&& jr as int == j
        },
        (Option::None, Option::None) => true,
        _ => false,
    }
}

/// The executable outcome mirrors the specification outcome, for object
/// members.
pub open spec fn members_rel(
    o: Option<(Seq<JsonMemberVal>, int)>,
    r: Option<(Vec<(String, JsonValue)>, usize)>,
) -> bool {
    match (o, r) {
        (Option::Some((ms, j)), Option::Some((vs, jr))) => {
            &&& vs@.len() == ms.len()
            &&& forall|k: int|
                0 <= k < ms.len() ==> vs@[k].0@ == (#[trigger] ms[k]).key && vs@[k].1@
                    == ms[k].val
            &&& jr as int == j
        },
        (Option::None, Option::None) => true,
        _ => false,
    }
}

/// Value at `i`, executable form.
fn parse_val_x(cs: &Vec<char>, i: usize) -> (r: Option<(JsonValue, usize)>)
    ensures
        val_rel(parse_val(cs@, i as int), r),
        r matches Option::Some((v, jr)) ==> jr <= cs@.len(),
    decreases cs@.len() - i, 2int,
{
    if i >= cs.len() {
        return Option::None;
    }
    let c = cs[i];
    if c == 'n' {
        if cs.len() - i >= 4 && cs[i + 1] == 'u' && cs[i + 2] == 'l' && cs[i + 3] == 'l' {
            Option::Some((JsonValue::Null, i + 4))
        } else {
            Option::None
        }
    } else if c == 't' {
        if cs.len() - i >= 4 && cs[i + 1] == 'r' && cs[i + 2] == 'u' && cs[i + 3] == 'e' {
            Option::Some((JsonValue::Bool(true), i + 4))
        } else {
            Option::None
        }
    } else if c == 'f' {
        if cs.len() - i >= 5 && cs[i + 1] == 'a' && cs[i + 2] == 'l' && cs[i + 3] == 's' && cs[i
            + 4] == 'e' {
            Option::Some((JsonValue::Bool(false), i + 5))
        } else {
            Option::None
        }
    } else if c == '"' {
        match parse_str_chars_x(cs, i + 1) {
            Option::Some((st, j)) => Option::Some((JsonValue::Str(st), j)),
            Option::None => Option::None,
        }
    } else if c == '-' || (48 <= c as u32 && c as u32 <= 57) {
        proof {
            assert(c == '-' || dec_val_of(c) >= 0);
            assert(!(c == 'n' || c == 't' || c == 'f' || c == '"'));
        }
        match parse_int_x(cs, i) {
            Option::Some((v, j)) => Option::Some((JsonValue::Int(v), j)),
            Option::None => Option::None,
        }
    } else if c == '[' {
        let j = skip_ws_x(cs, i + 1);
        if j < cs.len() && cs[j] == ']' {
            let empty: Vec<JsonValue> = Vec::new();
            proof {
                assert(JsonValue::Array(empty)@->Arr_0 =~= Seq::<JsonVal>::empty());
            }
            Option::Some((JsonValue::Array(empty), j + 1))
        } else if j > i {
            match parse_elems_x(cs, j) {
                Option::Some((vs, p)) => {
                    proof {
                        let ms = parse_elems(cs@, j as int)->Some_0.0;
                        assert(JsonValue::Array(vs)@->Arr_0 =~= ms);
                    }
                    Option::Some((JsonValue::Array(vs), p))
                },
                Option::None => Option::None,
            }
        } else {
            Option::None
        }
    } else if c == '{' {
        let j = skip_ws_x(cs, i + 1);
        if j < cs.len() && cs[j] == '}' {
            let empty: Vec<(String, JsonValue)> = Vec::new();
            proof {
                assert(JsonValue::Object(empty)@->Obj_0 =~= Seq::<JsonMemberVal>::empty());
            }
            Option::Some((JsonValue::Object(empty), j + 1))
        } else if j > i {
            match parse_members_x(cs, j) {
                Option::Some((vs, p)) => {
                    proof {
                        let ms = parse_members(cs@, j as int)->Some_0.0;
                        assert(JsonValue::Object(vs)@->Obj_0 =~= ms);
                    }
                    Option::Some((JsonValue::Object(vs), p))
                },
                Option::None => Option::None,
            }
        } else {
            Option::None
        }
    } else {
        Option::None
    }
}

/// Elements of a non-empty array, executable form.
fn parse_elems_x(cs: &Vec<char>, i: usize) -> (r: Option<(Vec<JsonValue>, usize)>)
    ensures
        elems_rel(parse_elems(cs@, i as int), r),
        r matches Option::Some((vs, jr)) ==> jr <= cs@.len(),
    decreases cs@.len() - i, 3int,
{
    if i >= cs.len() {
        return Option::None;
    }
    match parse_val_x(cs, i) {
        Option::Some((v, j)) => {
            let k = skip_ws_x(cs, j);
            if k >= cs.len() {
                return Option::None;
            }
            if cs[k] == ']' {
                let ghost m = parse_val(cs@, i as int)->Some_0.0;
                let vs = vec![v];
                proof {
                    assert(vs@ =~= seq![v]);
                    assert forall|t: int|
                        0 <= t < seq![m].len() implies vs@[t]@ == #[trigger] seq![m][t] by {
                        assert(seq![m][0] == m);
                    }
                }
                Option::Some((vs, k + 1))
            } else if cs[k] == ',' {
                let e = skip_ws_x(cs, k + 1);
                if e > i {
                    match parse_elems_x(cs, e) {
                        Option::Some((vs_rest, p)) => {
                            let ghost m = parse_val(cs@, i as int)->Some_0.0;
                            let ghost ms_rest = parse_elems(cs@, e as int)->Some_0.0;
                            let mut vs = vs_rest;
                            vs.insert(0, v);
                            proof {
                                assert(vs@ =~= seq![v] + vs_rest@);
                                let ms = seq![m] + ms_rest;
                                assert forall|t: int|
                                    0 <= t < ms.len() implies vs@[t]@ == #[trigger] ms[t] by {
                                    if t == 0 {
                                        assert(ms[0] == m);
                                        assert(vs@[0] == v);
                                    } else {
                                        assert(ms[t] == ms_rest[t - 1]);
                                        assert(vs@[t] == vs_rest@[t - 1]);
                                    }
                                }
                            }
                            Option::Some((vs, p))
                        },
                        Option::None => Option::None,
                    }
                } else {
                    Option::None
                }
            } else {
                Option::None
            }
        },
        Option::None => Option::None,
    }
}

/// Members of a non-empty object, executable form.
fn parse_members_x(cs: &Vec<char>, i: usize) -> (r: Option<(Vec<(String, JsonValue)>, usize)>)
    ensures
        members_rel(parse_members(cs@, i as int), r),
        r matches Option::Some((vs, jr)) ==> jr <= cs@.len(),
    decreases cs@.len() - i, 3int,
{
    if i >= cs.len() {
        return Option::None;
    }
    if !(cs[i] == '"') {
        return Option::None;
    }
    match parse_str_chars_x(cs, i + 1) {
        Option::Some((key, j)) => {
            let c = skip_ws_x(cs, j);
            if c >= cs.len() {
                return Option::None;
            }
            if !(cs[c] == ':') {
                return Option::None;
            }
            let vstart = skip_ws_x(cs, c + 1);
            if !(vstart > i) {
                return Option::None;
            }
            match parse_val_x(cs, vstart) {
                Option::Some((v, j2)) => {
                    let k = skip_ws_x(cs, j2);
                    if k >= cs.len() {
                        return Option::None;
                    }
                    if cs[k] == '}' {
                        let ghost km = parse_str_chars(cs@, i + 1)->Some_0.0;
                        let ghost m = parse_val(cs@, vstart as int)->Some_0.0;
                        let vs = vec![(key, v)];
                        proof {
                            let ms = seq![JsonMemberVal { key: km, val: m }];
                            assert(vs@ =~= seq![(key, v)]);
                            assert forall|t: int|
                                0 <= t < ms.len() implies vs@[t].0@ == (#[trigger] ms[t]).key
                                && vs@[t].1@ == ms[t].val by {
                                assert(ms[0] == JsonMemberVal { key: km, val: m });
                            }
                        }
                        Option::Some((vs, k + 1))
                    } else if cs[k] == ',' {
                        let e = skip_ws_x(cs, k + 1);
                        if e > i {
                            match parse_members_x(cs, e) {
                                Option::Some((vs_rest, p)) => {
                                    let ghost km = parse_str_chars(cs@, i + 1)->Some_0.0;
                                    let ghost m = parse_val(cs@, vstart as int)->Some_0.0;
                                    let ghost ms_rest = parse_members(cs@, e as int)->Some_0.0;
                                    let mut vs = vs_rest;
                                    vs.insert(0, (key, v));
                                    proof {
                                        assert(vs@ =~= seq![(key, v)] + vs_rest@);
                                        let ms = seq![JsonMemberVal { key: km, val: m }] + ms_rest;
                                        assert forall|t: int|
                                            0 <= t < ms.len() implies vs@[t].0@ == (
                                        #[trigger] ms[t]).key && vs@[t].1@ == ms[t].val by {
                                            if t == 0 {
                                                assert(ms[0] == JsonMemberVal {
                                                    key: km,
                                                    val: m,
                                                });
                                                assert(vs@[0] == (key, v));
                                            } else {
                                                assert(ms[t] == ms_rest[t - 1]);
                                                assert(vs@[t] == vs_rest@[t - 1]);
                                            }
                                        }
                                    }
                                    Option::Some((vs, p))
                                },
                                Option::None => Option::None,
                            }
                        } else {
                            Option::None
                        }
                    } else {
                        Option::None
                    }
                },
                Option::None => Option::None,
            }
        },
        Option::None => Option::None,
    }
}

/// Parses a whole JSON text: one value, possibly surrounded by whitespace.
pub fn parse_json_text(s: &str) -> (r: Option<JsonValue>)
    ensures
        match (parse_doc(s@), r) {
            (Option::Some(m), Option::Some(v)) => v@ == m,
            (Option::None, Option::None) => true,
            _ => false,
        },
{
    let cs = chars_of(s);
    let i = skip_ws_x(&cs, 0);
    match parse_val_x(&cs, i) {
        Option::Some((v, j)) => {
            let k = skip_ws_x(&cs, j);
            if k == cs.len() {
                Option::Some(v)
            } else {
                Option::None
            }
        },
        Option::None => Option::None,
    }
}

/// The document parsed from a byte payload: UTF-8 decoding, then the text.
pub open spec fn parse_bytes_spec(b: Seq<u8>) -> Option<JsonVal> {
    if valid_utf8(b) {
        parse_doc(decode_utf8(b))
    } else {
        Option::None
    }
}

/// Parses a JSON document from UTF-8 bytes.
pub fn parse_json_bytes(bytes: Vec<u8>) -> (r: Option<JsonValue>)
    ensures
        match (parse_bytes_spec(bytes@), r) {
            (Option::Some(m), Option::Some(v)) => v@ == m,
            (Option::None, Option::None) => true,
            _ => false,
        },
{
    match string_from_utf8(bytes) {
        Option::Some(text) => parse_json_text(text.as_str()),
        Option::None => Option::None,
    }
}

} // verus!



