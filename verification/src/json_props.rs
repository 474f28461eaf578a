//! The law that ties the JSON codec together: parsing the serialized text of
//! a well-formed value yields that value back.

use vstd::prelude::*;
use crate::json::{wf_val, JsonMemberVal, JsonVal};
use crate::json_text::{
    dec_digit_of, dec_digits, esc_char, esc_str_from, hex_digit_of, ser, ser_elems_from,
    ser_int, ser_members_from,
};
use crate::json_parse::{
    dec_val_of, digits_end, digits_val, hex4_val, hex_val_of, is_ws, parse_doc, parse_elems,
    parse_int, parse_members, parse_str_chars, parse_val, skip_ws,
};

verus! {

/// The text `t` stands at position `i` of `s`.
pub open spec fn matches_at(s: Seq<char>, i: int, t: Seq<char>) -> bool {
    &&& 0 <= i
    &&& i + t.len() <= s.len()
    &&& forall|k: int| 0 <= k < t.len() ==> s[i + k] == #[trigger] t[k]
}

proof fn lemma_matches_split(s: Seq<char>, i: int, t1: Seq<char>, t2: Seq<char>)
    requires
        matches_at(s, i, t1 + t2),
    ensures
        matches_at(s, i, t1),
        matches_at(s, i + t1.len(), t2),
{
    assert forall|k: int| 0 <= k < t1.len() implies s[i + k] == #[trigger] t1[k] by {
        assert((t1 + t2)[k] == t1[k]);
    }
    assert forall|k: int| 0 <= k < t2.len() implies s[i + t1.len() + k] == #[trigger] t2[k] by {
        assert((t1 + t2)[t1.len() + k] == t2[k]);
    }
}

proof fn lemma_matches_index(s: Seq<char>, i: int, t: Seq<char>, k: int)
    requires
        matches_at(s, i, t),
        0 <= k < t.len(),
    ensures
        s[i + k] == t[k],
{
    assert(s[i + k] == t[k]);
}

proof fn lemma_hex_val_digit(x: int)
    requires
        0 <= x < 16,
    ensures
        hex_val_of(hex_digit_of(x)) == x,
{
}

proof fn lemma_dec_val_digit(x: int)
    requires
        0 <= x < 10,
    ensures
        dec_val_of(dec_digit_of(x)) == x,
{
}

/// Every character of `dec_digits(n)` is a digit, and the first is zero only
/// for the number zero itself.
proof fn lemma_dec_digits_shape(n: nat)
    ensures
        dec_digits(n).len() >= 1,
        forall|k: int|
            0 <= k < dec_digits(n).len() ==> 0 <= dec_val_of(#[trigger] dec_digits(n)[k]) <= 9,
        n >= 1 ==> dec_val_of(dec_digits(n)[0]) >= 1,
        n < 10 ==> dec_digits(n).len() == 1,
    decreases n,
{
    if n < 10 {
        lemma_dec_val_digit(n as int);
    } else {
        lemma_dec_digits_shape(n / 10);
        lemma_dec_val_digit((n % 10) as int);
        let d = dec_digits(n);
        let p = dec_digits(n / 10);
        assert(d == p.push(dec_digit_of((n % 10) as int)));
        assert(forall|k: int| 0 <= k < p.len() ==> d[k] == p[k]);
        assert(n / 10 >= 1);
    }
}

/// Scanning digits stops exactly where the digits stop.
proof fn lemma_digits_end(s: Seq<char>, i: int, e: int)
    requires
        0 <= i <= e <= s.len(),
        forall|k: int| i <= k < e ==> dec_val_of(#[trigger] s[k]) >= 0,
        e == s.len() || dec_val_of(s[e]) < 0,
    ensures
        digits_end(s, i) == e,
    decreases e - i,
{
    if i < e {
        lemma_digits_end(s, i + 1, e);
    }
}

/// The value scanned from the text of `n` is `n` again.
proof fn lemma_digits_val(s: Seq<char>, i: int, n: nat)
    requires
        matches_at(s, i, dec_digits(n)),
    ensures
        digits_val(s, i, i + dec_digits(n).len()) == n,
    decreases n,
{
    let d = dec_digits(n);
    if n < 10 {
        lemma_dec_val_digit(n as int);
        assert(s[i] == d[0]);
        assert(digits_val(s, i, i) == 0);
        assert(digits_val(s, i, i + 1) == dec_val_of(s[i]));
    } else {
        let p = dec_digits(n / 10);
        lemma_dec_val_digit((n % 10) as int);
        assert(d == p.push(dec_digit_of((n % 10) as int)));
        assert forall|k: int| 0 <= k < p.len() implies s[i + k] == #[trigger] p[k] by {
            assert(d[k] == p[k]);
        }
        lemma_digits_val(s, i, n / 10);
        assert(s[i + d.len() - 1] == d[d.len() - 1]);
        assert(digits_val(s, i, i + d.len()) == digits_val(s, i, i + p.len()) * 10 + dec_val_of(
            s[i + d.len() - 1],
        ));
    }
}

/// Parsing a string body recovers the characters that were escaped into it.
proof fn lemma_parse_esc(cs: Seq<char>, k: int, s: Seq<char>, i: int)
    requires
        0 <= k <= cs.len(),
        matches_at(s, i, esc_str_from(cs, k)),
        i + esc_str_from(cs, k).len() < s.len(),
        s[i + esc_str_from(cs, k).len()] == '"',
    ensures
        parse_str_chars(s, i) == Option::Some(
            (cs.skip(k), i + esc_str_from(cs, k).len() + 1),
        ),
    decreases cs.len() - k,
{
    broadcast use vstd::utf8::char_u32_cast;

    let tail = esc_str_from(cs, k);
    if k == cs.len() {
        assert(tail =~= Seq::<char>::empty());
        assert(s[i] == '"');
        assert(cs.skip(k) =~= Seq::<char>::empty());
    } else {
        let c = cs[k];
        let e = esc_char(c);
        let t2 = esc_str_from(cs, k + 1);
        assert(tail == e + t2);
        lemma_matches_split(s, i, e, t2);
        let i2 = i + e.len();
        lemma_parse_esc(cs, k + 1, s, i2);
        assert(seq![c] + cs.skip(k + 1) =~= cs.skip(k));
        if c == '"' {
            assert(s[i] == e[0] && s[i + 1] == e[1]);
            assert(parse_str_chars(s, i) == Option::Some((cs.skip(k), i + tail.len() + 1)));
        } else if c == '\\' {
            assert(s[i] == e[0] && s[i + 1] == e[1]);
            assert(parse_str_chars(s, i) == Option::Some((cs.skip(k), i + tail.len() + 1)));
        } else if (c as u32) < 32 {
            let u = c as u32;
            assert(s[i] == e[0] && s[i + 1] == e[1] && s[i + 2] == e[2] && s[i + 3] == e[3] && s[i
                + 4] == e[4] && s[i + 5] == e[5]);
            assert(hex_val_of('0') == 0);
            lemma_hex_val_digit((u / 16) as int);
            lemma_hex_val_digit((u % 16) as int);
            assert(hex4_val(s, i + 2) == u);
            let h = hex4_val(s, i + 2);
            assert((h as u32) as char == c) by {
                vstd::utf8::char_u32_cast(c, h as u32);
            }
            assert(seq![(h as u32) as char] + cs.skip(k + 1) =~= cs.skip(k));
            assert(parse_str_chars(s, i) == Option::Some((cs.skip(k), i + tail.len() + 1)));
        } else {
            assert(s[i] == e[0]);
            assert(s[i] == c);
            assert(parse_str_chars(s, i) == Option::Some((cs.skip(k), i + tail.len() + 1)));
        }
    }
}

/// Characters that can start a serialized value.
pub open spec fn starts_value(c: char) -> bool {
    c == 'n' || c == 't' || c == 'f' || c == '"' || c == '-' || dec_val_of(c) >= 0 || c == '['
        || c == '{'
}

/// A serialized value is non-empty, and its first character announces a
/// value: in particular it is neither whitespace nor a delimiter.
proof fn lemma_ser_starts(m: JsonVal)
    ensures
        ser(m).len() >= 1,
        starts_value(ser(m)[0]),
        !is_ws(ser(m)[0]),
        ser(m)[0] != ']' && ser(m)[0] != '}' && ser(m)[0] != ',' && ser(m)[0] != ':',
{
    match m {
        JsonVal::Int(n) => {
            if n >= 0 {
                lemma_dec_digits_shape(n as nat);
                assert(0 <= dec_val_of(ser(m)[0]) <= 9);
            } else {
                assert(ser(m)[0] == '-');
            }
        },
        JsonVal::Str(s) => {
            assert(ser(m)[0] == '"');
        },
        JsonVal::Arr(a) => {
            assert(ser(m)[0] == '[');
        },
        JsonVal::Obj(o) => {
            assert(ser(m)[0] == '{');
        },
        _ => {},
    }
}

/// A position that may legitimately follow a serialized value.
pub open spec fn is_follower(s: Seq<char>, j: int) -> bool {
    j == s.len() || s[j] == ',' || s[j] == ']' || s[j] == '}'
}

/// Parsing the text of an integer in range recovers it.
proof fn lemma_parse_ser_int(n: int, s: Seq<char>, i: int)
    requires
        -0x8000000000000000 <= n <= 0x7FFFFFFFFFFFFFFF,
        matches_at(s, i, ser_int(n)),
        is_follower(s, i + ser_int(n).len()),
    ensures
        parse_int(s, i) == Option::Some((JsonVal::Int(n), i + ser_int(n).len())),
{
    let t = ser_int(n);
    if n >= 0 {
        let d = dec_digits(n as nat);
        assert(t == d);
        lemma_dec_digits_shape(n as nat);
        assert forall|k: int| i <= k < i + d.len() implies dec_val_of(#[trigger] s[k]) >= 0 by {
            assert(s[k] == d[k - i]);
        }
        let e = i + d.len();
        assert(e == s.len() || dec_val_of(s[e]) < 0);
        lemma_digits_end(s, i, e);
        lemma_digits_val(s, i, n as nat);
        assert(s[i] == d[0]);
        assert(dec_val_of(s[i]) >= 0);
        assert(s[i] != '-');
        if n >= 10 {
            assert(dec_val_of(s[i]) >= 1);
            assert(s[i] != '0');
        } else {
            assert(d.len() == 1);
        }
    } else {
        let mag = (-n) as nat;
        let d = dec_digits(mag);
        assert(t == seq!['-'] + d);
        lemma_matches_split(s, i, seq!['-'], d);
        lemma_matches_index(s, i, seq!['-'], 0);
        assert(s[i] == '-');
        lemma_dec_digits_shape(mag);
        assert forall|k: int| i + 1 <= k < i + 1 + d.len() implies dec_val_of(
            #[trigger] s[k],
        ) >= 0 by {
            assert(s[k] == d[k - (i + 1)]);
        }
        let e = i + 1 + d.len();
        assert(e == s.len() || dec_val_of(s[e]) < 0);
        lemma_digits_end(s, i + 1, e);
        lemma_digits_val(s, i + 1, mag);
        assert(s[i + 1] == d[0]);
        assert(dec_val_of(s[i + 1]) >= 0);
        assert(mag >= 1);
        if mag >= 10 {
            assert(dec_val_of(s[i + 1]) >= 1);
            assert(s[i + 1] != '0');
        } else {
            assert(d.len() == 1);
            assert(dec_val_of(s[i + 1]) >= 1);
            assert(s[i + 1] != '0');
        }
    }
}

/// Parsing the serialized text of a well-formed value recovers the value.
#[verifier::rlimit(60)]
proof fn lemma_parse_ser_val(m: JsonVal, s: Seq<char>, i: int)
    requires
        wf_val(m),
        matches_at(s, i, ser(m)),
        is_follower(s, i + ser(m).len()),
    ensures
        parse_val(s, i) == Option::Some((m, i + ser(m).len())),
    decreases m, 0int,
{
    let t = ser(m);
    match m {
        JsonVal::Null => {
            assert(s[i] == t[0] && s[i + 1] == t[1] && s[i + 2] == t[2] && s[i + 3] == t[3]);
        },
        JsonVal::Bool(b) => {
            if b {
                assert(s[i] == t[0] && s[i + 1] == t[1] && s[i + 2] == t[2] && s[i + 3] == t[3]);
            } else {
                assert(s[i] == t[0] && s[i + 1] == t[1] && s[i + 2] == t[2] && s[i + 3] == t[3]
                    && s[i + 4] == t[4]);
            }
        },
        JsonVal::Int(n) => {
            lemma_parse_ser_int(n, s, i);
            assert(s[i] == t[0]);
            lemma_ser_starts(m);
            if n >= 0 {
                lemma_dec_digits_shape(n as nat);
                assert(0 <= dec_val_of(s[i]) <= 9);
                assert(48 <= s[i] as u32 <= 57);
            } else {
                assert(s[i] == '-');
            }
        },
        JsonVal::Str(cs) => {
            let et = esc_str_from(cs, 0);
            assert(t == seq!['"'] + et + seq!['"']);
            lemma_matches_split(s, i, seq!['"'] + et, seq!['"']);
            lemma_matches_split(s, i, seq!['"'], et);
            lemma_matches_index(s, i, seq!['"'], 0);
            lemma_matches_index(s, i + 1 + et.len(), seq!['"'], 0);
            assert(s[i] == '"');
            assert(s[i + 1 + et.len()] == '"');
            lemma_parse_esc(cs, 0, s, i + 1);
            assert(cs.skip(0) =~= cs);
        },
        JsonVal::Arr(a) => {
            let et = ser_elems_from(a, 0);
            assert(t == seq!['['] + et + seq![']']);
            lemma_matches_split(s, i, seq!['['] + et, seq![']']);
            lemma_matches_split(s, i, seq!['['], et);
            lemma_matches_index(s, i, seq!['['], 0);
            lemma_matches_index(s, i + 1 + et.len(), seq![']'], 0);
            assert(s[i] == '[');
            assert(s[i + 1 + et.len()] == ']');
            if a.len() == 0 {
                assert(et =~= Seq::<char>::empty());
                lemma_matches_index(s, i + 1, seq![']'], 0);
                assert(s[i + 1] == ']');
                assert(!is_ws(s[i + 1]));
                assert(skip_ws(s, i + 1) == i + 1);
                assert(a =~= Seq::<JsonVal>::empty());
            } else {
                lemma_ser_starts(a[0]);
                assert(et.len() >= 1 && et[0] == ser(a[0])[0]) by {
                    if a.len() == 1 {
                        assert(et == ser(a[0]));
                    } else {
                        assert(et == ser(a[0]) + seq![','] + ser_elems_from(a, 1));
                        assert(et[0] == ser(a[0])[0]);
                    }
                }
                lemma_matches_index(s, i + 1, et, 0);
                assert(s[i + 1] == et[0]);
                assert(!is_ws(s[i + 1]));
                assert(skip_ws(s, i + 1) == i + 1);
                assert(s[i + 1] != ']');
                lemma_parse_ser_elems(a, 0, s, i + 1);
                assert(a.skip(0) =~= a);
            }
        },
        JsonVal::Obj(o) => {
            let et = ser_members_from(o, 0);
            assert(t == seq!['{'] + et + seq!['}']);
            lemma_matches_split(s, i, seq!['{'] + et, seq!['}']);
            lemma_matches_split(s, i, seq!['{'], et);
            lemma_matches_index(s, i, seq!['{'], 0);
            lemma_matches_index(s, i + 1 + et.len(), seq!['}'], 0);
            assert(s[i] == '{');
            assert(s[i + 1 + et.len()] == '}');
            if o.len() == 0 {
                assert(et =~= Seq::<char>::empty());
                lemma_matches_index(s, i + 1, seq!['}'], 0);
                assert(s[i + 1] == '}');
                assert(!is_ws(s[i + 1]));
                assert(skip_ws(s, i + 1) == i + 1);
                assert(o =~= Seq::<JsonMemberVal>::empty());
            } else {
                assert(et[0] == '"');
                lemma_matches_index(s, i + 1, et, 0);
                assert(s[i + 1] == '"');
                assert(!is_ws(s[i + 1]));
                assert(skip_ws(s, i + 1) == i + 1);
                assert(s[i + 1] != '}');
                lemma_parse_ser_members(o, 0, s, i + 1);
                assert(o.skip(0) =~= o);
            }
        },
    }
}

/// Parsing the serialized elements of an array tail recovers them.
#[verifier::rlimit(60)]
proof fn lemma_parse_ser_elems(a: Seq<JsonVal>, k: int, s: Seq<char>, i: int)
    requires
        0 <= k < a.len(),
        forall|t: int| 0 <= t < a.len() ==> wf_val(#[trigger] a[t]),
        matches_at(s, i, ser_elems_from(a, k)),
        i + ser_elems_from(a, k).len() < s.len(),
        s[i + ser_elems_from(a, k).len()] == ']',
    ensures
        parse_elems(s, i) == Option::Some(
            (a.skip(k), i + ser_elems_from(a, k).len() + 1),
        ),
    decreases a, a.len() - k + 1,
{
    let t = ser_elems_from(a, k);
    let et = ser(a[k]);
    if k == a.len() - 1 {
        assert(t == et);
        lemma_parse_ser_val(a[k], s, i);
        let j = i + et.len();
        assert(s[j] == ']');
        assert(!is_ws(s[j]));
        assert(skip_ws(s, j) == j);
        assert(seq![a[k]] =~= a.skip(k));
    } else {
        assert(t == et + seq![','] + ser_elems_from(a, k + 1));
        lemma_matches_split(s, i, et + seq![','], ser_elems_from(a, k + 1));
        lemma_matches_split(s, i, et, seq![',']);
        let j = i + et.len();
        lemma_matches_index(s, j, seq![','], 0);
        assert(s[j] == ',');
        lemma_parse_ser_val(a[k], s, i);
        assert(!is_ws(s[j]));
        assert(skip_ws(s, j) == j);
        assert(s[j] != ']');
        let r = ser_elems_from(a, k + 1);
        lemma_matches_index(s, j + 1, r, 0);
        assert(s[j + 1] == r[0]);
        assert(r[0] == ser(a[k + 1])[0]) by {
            if k + 1 == a.len() - 1 {
            } else {
                assert(r == ser(a[k + 1]) + seq![','] + ser_elems_from(a, k + 2));
                assert(r[0] == ser(a[k + 1])[0]);
            }
        }
        lemma_ser_starts(a[k + 1]);
        assert(!is_ws(s[j + 1]));
        assert(skip_ws(s, j + 1) == j + 1);
        assert(s[j + 1 + r.len()] == ']') by {
            assert(i + t.len() == j + 1 + r.len());
        }
        lemma_parse_ser_elems(a, k + 1, s, j + 1);
        assert(seq![a[k]] + a.skip(k + 1) =~= a.skip(k));
    }
}

/// Parsing the serialized members of an object tail recovers them.
#[verifier::rlimit(60)]
proof fn lemma_parse_ser_members(o: Seq<JsonMemberVal>, k: int, s: Seq<char>, i: int)
    requires
        0 <= k < o.len(),
        forall|t: int| 0 <= t < o.len() ==> wf_val(#[trigger] o[t].val),
        matches_at(s, i, ser_members_from(o, k)),
        i + ser_members_from(o, k).len() < s.len(),
        s[i + ser_members_from(o, k).len()] == '}',
    ensures
        parse_members(s, i) == Option::Some(
            (o.skip(k), i + ser_members_from(o, k).len() + 1),
        ),
    decreases o, o.len() - k + 1,
{
    let t = ser_members_from(o, k);
    let key = o[k].key;
    let kt = esc_str_from(key, 0);
    let vt = ser(o[k].val);
    let mt = seq!['"'] + kt + seq!['"'] + seq![':'] + vt;
    let rest = ser_members_from(o, k + 1);
    if k == o.len() - 1 {
        assert(t == mt);
    } else {
        assert(t == mt + seq![','] + rest);
        lemma_matches_split(s, i, mt + seq![','], rest);
        lemma_matches_split(s, i, mt, seq![',']);
    }
    // Decompose the member text.
    lemma_matches_split(s, i, seq!['"'] + kt + seq!['"'] + seq![':'], vt);
    lemma_matches_split(s, i, seq!['"'] + kt + seq!['"'], seq![':']);
    lemma_matches_split(s, i, seq!['"'] + kt, seq!['"']);
    lemma_matches_split(s, i, seq!['"'], kt);
    lemma_matches_index(s, i, seq!['"'], 0);
    assert(s[i] == '"');
    let qi = i + 1 + kt.len();
    lemma_matches_index(s, qi, seq!['"'], 0);
    assert(s[qi] == '"');
    let ci = qi + 1;
    lemma_matches_index(s, ci, seq![':'], 0);
    assert(s[ci] == ':');
    let vi = ci + 1;
    lemma_parse_esc(key, 0, s, i + 1);
    assert(key.skip(0) =~= key);
    assert(!is_ws(s[ci]));
    assert(skip_ws(s, ci) == ci);
    lemma_ser_starts(o[k].val);
    lemma_matches_index(s, vi, vt, 0);
    assert(s[vi] == vt[0]);
    assert(!is_ws(s[vi]));
    assert(skip_ws(s, vi) == vi);
    let j2 = vi + vt.len();
    if k == o.len() - 1 {
        assert(j2 == i + t.len());
        assert(s[j2] == '}');
    } else {
        assert(j2 == i + mt.len());
        lemma_matches_index(s, j2, seq![','], 0);
        assert(s[j2] == ',');
    }
    lemma_parse_ser_val(o[k].val, s, vi);
    if k == o.len() - 1 {
        assert(s[j2] == '}') by {
            assert(j2 == i + t.len());
        }
        assert(!is_ws(s[j2]));
        assert(skip_ws(s, j2) == j2);
        assert(seq![JsonMemberVal { key, val: o[k].val }] =~= o.skip(k)) by {
            assert(o[k] == JsonMemberVal { key, val: o[k].val });
        }
    } else {
        assert(s[j2] == ',') by {
            assert(j2 == i + mt.len());
            lemma_matches_index(s, j2, seq![','], 0);
        }
        assert(!is_ws(s[j2]));
        assert(skip_ws(s, j2) == j2);
        assert(s[j2] != '}');
        lemma_matches_index(s, j2 + 1, rest, 0);
        assert(s[j2 + 1] == rest[0]);
        assert(rest[0] == '"');
        assert(!is_ws(s[j2 + 1]));
        assert(skip_ws(s, j2 + 1) == j2 + 1);
        assert(s[j2 + 1 + rest.len()] == '}') by {
            assert(i + t.len() == j2 + 1 + rest.len());
        }
        lemma_parse_ser_members(o, k + 1, s, j2 + 1);
        assert(seq![JsonMemberVal { key, val: o[k].val }] + o.skip(k + 1) =~= o.skip(k)) by {
            assert(o[k] == JsonMemberVal { key, val: o[k].val });
        }
    }
}

/// Round trip of the JSON codec: parsing the serialized text of any
/// well-formed value yields exactly that value.
pub proof fn lemma_parse_doc_ser(m: JsonVal)
    requires
        wf_val(m),
    ensures
        parse_doc(ser(m)) == Option::Some(m),
{
    let s = ser(m);
    lemma_ser_starts(m);
    assert(!is_ws(s[0]));
    assert(skip_ws(s, 0) == 0);
    assert forall|k: int| 0 <= k < s.len() implies s[0 + k] == #[trigger] s[k] by {}
    assert(matches_at(s, 0, s));
    assert(is_follower(s, s.len() as int));
    lemma_parse_ser_val(m, s, 0);
    assert(skip_ws(s, s.len() as int) == s.len());
}

} // verus!


