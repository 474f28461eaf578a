//! JSON serializer: the canonical text of a `JsonValue`, with no
//! whitespace. Strings escape `"`, `\` and control characters (the latter as
//! `\u00XX`); all other characters are written as themselves.

use vstd::prelude::*;
use vstd::string::{StrSliceExecFns, StringExecFns};
use vstd::utf8::encode_utf8;
use crate::json::{JsonMemberVal, JsonVal, JsonValue};
use crate::text::{chars_of, push_char};

verus! {

/// Lower-case hexadecimal digit for a value below 16.
pub open spec fn hex_digit_of(n: int) -> char
    recommends
        0 <= n < 16,
{
    if n < 10 {
        ((n + 48) as u8) as char
    } else {
        ((n + 87) as u8) as char
    }
}

/// Decimal digit for a value below 10.
pub open spec fn dec_digit_of(n: int) -> char
    recommends
        0 <= n < 10,
{
    ((n + 48) as u8) as char
}

/// Decimal digits of a natural number, most significant first.
pub open spec fn dec_digits(n: nat) -> Seq<char>
    decreases n,
{
    if n < 10 {
        seq![dec_digit_of(n as int)]
    } else {
        dec_digits(n / 10).push(dec_digit_of((n % 10) as int))
    }
}

/// Decimal text of an integer, with a leading minus sign when negative.
pub open spec fn ser_int(n: int) -> Seq<char> {
    if n < 0 {
        seq!['-'] + dec_digits((-n) as nat)
    } else {
        dec_digits(n as nat)
    }
}

/// Escape sequence of one string character.
pub open spec fn esc_char(c: char) -> Seq<char> {
    if c == '"' {
        seq!['\\', '"']
    } else if c == '\\' {
        seq!['\\', '\\']
    } else if (c as u32) < 32 {
        seq![
            '\\',
            'u',
            '0',
            '0',
            hex_digit_of(((c as u32) / 16) as int),
            hex_digit_of(((c as u32) % 16) as int),
        ]
    } else {
        seq![c]
    }
}

/// Escaped text of the characters of a string from position `i` on.
pub open spec fn esc_str_from(s: Seq<char>, i: int) -> Seq<char>
    decreases s.len() - i,
{
    if i < 0 || i >= s.len() {
        Seq::empty()
    } else {
        esc_char(s[i]) + esc_str_from(s, i + 1)
    }
}

/// JSON text of a value.
pub open spec fn ser(m: JsonVal) -> Seq<char>
    decreases m, 0int,
{
    match m {
        JsonVal::Null => seq!['n', 'u', 'l', 'l'],
        JsonVal::Bool(b) => if b {
            seq!['t', 'r', 'u', 'e']
        } else {
            seq!['f', 'a', 'l', 's', 'e']
        },
        JsonVal::Int(n) => ser_int(n),
        JsonVal::Str(s) => seq!['"'] + esc_str_from(s, 0) + seq!['"'],
        JsonVal::Arr(a) => seq!['['] + ser_elems_from(a, 0) + seq![']'],
        JsonVal::Obj(o) => seq!['{'] + ser_members_from(o, 0) + seq!['}'],
    }
}

/// JSON text of the elements of an array from position `i` on, separated by
/// commas.
pub open spec fn ser_elems_from(a: Seq<JsonVal>, i: int) -> Seq<char>
    decreases a, a.len() - i + 1,
{
    if i < 0 || i >= a.len() {
        Seq::empty()
    } else if i == a.len() - 1 {
        ser(a[i])
    } else {
        ser(a[i]) + seq![','] + ser_elems_from(a, i + 1)
    }
}

/// JSON text of the members of an object from position `i` on, separated by
/// commas.
pub open spec fn ser_members_from(o: Seq<JsonMemberVal>, i: int) -> Seq<char>
    decreases o, o.len() - i + 1,
{
    if i < 0 || i >= o.len() {
        Seq::empty()
    } else {
        let m = seq!['"'] + esc_str_from(o[i].key, 0) + seq!['"'] + seq![':'] + ser(o[i].val);
        if i == o.len() - 1 {
            m
        } else {
            m + seq![','] + ser_members_from(o, i + 1)
        }
    }
}

/// Lower-case hexadecimal digit character.
fn hex_digit(n: u32) -> (c: char)
    requires
        n < 16,
    ensures
        c == hex_digit_of(n as int),
{
    if n < 10 {
        ((n + 48) as u8) as char
    } else {
        ((n + 87) as u8) as char
    }
}

/// Appends the decimal digits of `n` to `out`.
fn write_u64(n: u64, out: &mut String)
    ensures
        final(out)@ == old(out)@ + dec_digits(n as nat),
    decreases n,
{
    if n < 10 {
        push_char(out, ((n as u8) + 48) as char);
        proof {
            assert(final(out)@ =~= old(out)@ + dec_digits(n as nat));
        }
    } else {
        write_u64(n / 10, out);
        push_char(out, (((n % 10) as u8) + 48) as char);
        proof {
            assert(final(out)@ =~= old(out)@ + dec_digits(n as nat));
        }
    }
}

/// Appends the decimal text of `n` to `out`.
fn write_i64(n: i64, out: &mut String)
    ensures
        final(out)@ == old(out)@ + ser_int(n as int),
{
    if n >= 0 {
        write_u64(n as u64, out);
    } else {
        push_char(out, '-');
        let mag: u64 = ((-(n + 1)) as u64) + 1;
        proof {
            assert(mag as nat == -(n as int));
        }
        write_u64(mag, out);
        proof {
            assert(final(out)@ =~= old(out)@ + ser_int(n as int));
        }
    }
}

/// Appends the escaped text of the characters of `s` to `out` (without the
/// surrounding quotes).
fn write_escaped(s: &str, out: &mut String)
    ensures
        final(out)@ == old(out)@ + esc_str_from(s@, 0),
{
    let cs = chars_of(s);
    let n = cs.len();
    let mut i: usize = 0;
    proof {
        assert(old(out)@ + Seq::<char>::empty() =~= old(out)@);
    }
    while i < n
        invariant
            i <= n,
            n == cs@.len(),
            cs@ == s@,
            out@ + esc_str_from(s@, i as int) == old(out)@ + esc_str_from(s@, 0),
        decreases n - i,
    {
        let ghost pre = out@;
        let c = cs[i];
        if c == '"' {
            push_char(out, '\\');
            push_char(out, '"');
        } else if c == '\\' {
            push_char(out, '\\');
            push_char(out, '\\');
        } else if (c as u32) < 32 {
            let u = c as u32;
            push_char(out, '\\');
            push_char(out, 'u');
            push_char(out, '0');
            push_char(out, '0');
            push_char(out, hex_digit(u / 16));
            push_char(out, hex_digit(u % 16));
        } else {
            push_char(out, c);
        }
        proof {
            assert(out@ =~= pre + esc_char(s@[i as int]));
            assert(esc_str_from(s@, i as int) == esc_char(s@[i as int]) + esc_str_from(
                s@,
                i + 1 as int,
            ));
            assert((pre + esc_char(s@[i as int])) + esc_str_from(s@, i + 1 as int) =~= pre + (
            esc_char(s@[i as int]) + esc_str_from(s@, i + 1 as int)));
        }
        i = i + 1;
    }
    proof {
        assert(esc_str_from(s@, n as int) =~= Seq::<char>::empty());
        assert(out@ + Seq::<char>::empty() =~= out@);
    }
}

/// Appends the JSON text of `v` to `out`.
fn write_json(v: &JsonValue, out: &mut String)
    ensures
        final(out)@ == old(out)@ + ser(v@),
    decreases v,
{
    match v {
        JsonValue::Null => {
            push_char(out, 'n');
            push_char(out, 'u');
            push_char(out, 'l');
            push_char(out, 'l');
            proof {
                assert(final(out)@ =~= old(out)@ + ser(v@));
            }
        },
        JsonValue::Bool(b) => {
            if *b {
                push_char(out, 't');
                push_char(out, 'r');
                push_char(out, 'u');
                push_char(out, 'e');
            } else {
                push_char(out, 'f');
                push_char(out, 'a');
                push_char(out, 'l');
                push_char(out, 's');
                push_char(out, 'e');
            }
            proof {
                assert(final(out)@ =~= old(out)@ + ser(v@));
            }
        },
        JsonValue::Int(n) => {
            write_i64(*n, out);
        },
        JsonValue::Str(s) => {
            push_char(out, '"');
            write_escaped(s.as_str(), out);
            push_char(out, '"');
            proof {
                assert(final(out)@ =~= old(out)@ + ser(v@));
            }
        },
        JsonValue::Array(a) => {
            push_char(out, '[');
            let n = a.len();
            let ghost es = v@->Arr_0;
            proof {
                assert(*v == JsonValue::Array(*a));
                assert(v@ == JsonVal::Arr(es));
                assert(es.len() == a@.len());
                assert(forall|k: int| 0 <= k < a@.len() ==> es[k] == a@[k]@);
            }
            let mut i: usize = 0;
            while i < n
                invariant
                    i <= n,
                    n == a@.len(),
                    *v == JsonValue::Array(*a),
                    v@ == JsonVal::Arr(es),
                    es.len() == n,
                    forall|k: int| 0 <= k < n ==> es[k] == a@[k]@,
                    i < n ==> out@ + ser_elems_from(es, i as int) + seq![']'] == old(out)@ + ser(
                        v@,
                    ),
                    i == n ==> out@ + seq![']'] == old(out)@ + ser(v@),
                decreases n - i,
            {
                let ghost pre = out@;
                proof {
                    assert(es[i as int] == a@[i as int]@);
                    assert(decreases_to!(*v => v->Array_0));
                    assert(decreases_to!(v->Array_0 => v->Array_0[i as int]));
                }
                write_json(&a[i], out);
                if i + 1 < n {
                    push_char(out, ',');
                    proof {
                        assert(out@ =~= pre + ser(es[i as int]) + seq![',']);
                        assert(ser_elems_from(es, i as int) == ser(es[i as int]) + seq![',']
                            + ser_elems_from(es, i + 1 as int));
                        assert(pre + ser(es[i as int]) + seq![','] + ser_elems_from(
                            es,
                            i + 1 as int,
                        ) + seq![']'] =~= pre + ser_elems_from(es, i as int) + seq![']']);
                    }
                } else {
                    proof {
                        assert(i == n - 1);
                        assert(ser_elems_from(es, i as int) == ser(es[i as int]));
                        assert(out@ =~= pre + ser_elems_from(es, i as int));
                    }
                }
                i = i + 1;
            }
            if n == 0 {
                proof {
                    assert(ser_elems_from(es, 0) =~= Seq::<char>::empty());
                    assert(out@ + seq![']'] =~= old(out)@ + ser(v@));
                }
            }
            push_char(out, ']');
            proof {
                assert(final(out)@ =~= old(out)@ + ser(v@));
            }
        },
        JsonValue::Object(o) => {
            push_char(out, '{');
            let n = o.len();
            let ghost ms = v@->Obj_0;
            proof {
                assert(*v == JsonValue::Object(*o));
                assert(v@ == JsonVal::Obj(ms));
                assert(ms.len() == o@.len());
                assert(forall|k: int|
                    0 <= k < o@.len() ==> ms[k] == (JsonMemberVal { key: o@[k].0@, val: o@[k].1@ }));
            }
            let mut i: usize = 0;
            while i < n
                invariant
                    i <= n,
                    n == o@.len(),
                    *v == JsonValue::Object(*o),
                    v@ == JsonVal::Obj(ms),
                    ms.len() == n,
                    forall|k: int|
                        0 <= k < n ==> ms[k] == (JsonMemberVal { key: o@[k].0@, val: o@[k].1@ }),
                    i < n ==> out@ + ser_members_from(ms, i as int) + seq!['}'] == old(out)@ + ser(
                        v@,
                    ),
                    i == n ==> out@ + seq!['}'] == old(out)@ + ser(v@),
                decreases n - i,
            {
                let ghost pre = out@;
                proof {
                    assert(ms[i as int] == (JsonMemberVal {
                        key: o@[i as int].0@,
                        val: o@[i as int].1@,
                    }));
                    assert(decreases_to!(*v => v->Object_0));
                    assert(decreases_to!(v->Object_0 => v->Object_0[i as int]));
                    assert(decreases_to!(v->Object_0[i as int] => v->Object_0[i as int].1));
                }
                push_char(out, '"');
                write_escaped(o[i].0.as_str(), out);
                push_char(out, '"');
                push_char(out, ':');
                write_json(&o[i].1, out);
                proof {
                    let m = seq!['"'] + esc_str_from(ms[i as int].key, 0) + seq!['"'] + seq![':']
                        + ser(ms[i as int].val);
                    assert(out@ =~= pre + m);
                }
                if i + 1 < n {
                    push_char(out, ',');
                    proof {
                        let m = seq!['"'] + esc_str_from(ms[i as int].key, 0) + seq!['"'] + seq![':']
                            + ser(ms[i as int].val);
                        assert(out@ =~= pre + m + seq![',']);
                        assert(ser_members_from(ms, i as int) == m + seq![','] + ser_members_from(
                            ms,
                            i + 1 as int,
                        ));
                        assert(pre + m + seq![','] + ser_members_from(ms, i + 1 as int)
                            + seq!['}'] =~= pre + ser_members_from(ms, i as int) + seq!['}']);
                    }
                } else {
                    proof {
                        let m = seq!['"'] + esc_str_from(ms[i as int].key, 0) + seq!['"'] + seq![':']
                            + ser(ms[i as int].val);
                        assert(i == n - 1);
                        assert(ser_members_from(ms, i as int) == m);
                    }
                }
                i = i + 1;
            }
            if n == 0 {
                proof {
                    assert(ser_members_from(ms, 0) =~= Seq::<char>::empty());
                    assert(out@ + seq!['}'] =~= old(out)@ + ser(v@));
                }
            }
            push_char(out, '}');
            proof {
                assert(final(out)@ =~= old(out)@ + ser(v@));
            }
        },
    }
}

/// JSON text of a value.
pub fn to_json_text(v: &JsonValue) -> (r: String)
    ensures
        r@ == ser(v@),
{
    let mut out = String::new();
    write_json(v, &mut out);
    proof {
        assert(Seq::<char>::empty() + ser(v@) =~= ser(v@));
    }
    out
}

/// UTF-8 bytes of the JSON text of a value.
pub fn to_json_bytes(v: &JsonValue) -> (r: Vec<u8>)
    ensures
        r@ == encode_utf8(ser(v@)),
{
    let text = to_json_text(v);
    text.as_str().as_bytes_vec()
}

} // verus!
