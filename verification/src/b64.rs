//! Base64 codec for the `data` field of wire messages, in the standard
//! alphabet with `=` padding. Encoding is canonical; decoding accepts `=`
//! padding only in the final group and rejects a final symbol whose unused
//! trailing bits are not zero, so only canonical encodings decode.

use vstd::prelude::*;
use crate::text::{chars_of, push_char};

verus! {

/// Character of the standard alphabet for a six-bit value.
pub open spec fn b64_char_of(s: u8) -> char
    recommends
        s < 64,
{
    if s < 26 {
        ((s + 65) as u8) as char
    } else if s < 52 {
        ((s + 71) as u8) as char
    } else if s < 62 {
        ((s - 4) as u8) as char
    } else if s == 62 {
        '+'
    } else {
        '/'
    }
}

/// Six-bit value of an alphabet character, or -1 for anything else
/// (including `=`).
pub open spec fn b64_val_of(c: char) -> int {
    let u = c as u32;
    if 65 <= u <= 90 {
        u - 65
    } else if 97 <= u <= 122 {
        u - 71
    } else if 48 <= u <= 57 {
        u + 4
    } else if c == '+' {
        62
    } else if c == '/' {
        63
    } else {
        -1
    }
}

pub proof fn lemma_b64_val_char(s: u8)
    requires
        s < 64,
    ensures
        b64_val_of(b64_char_of(s)) == s,
{
}

/// The base64 text of a byte sequence.
pub open spec fn b64_encode(bs: Seq<u8>) -> Seq<char>
    decreases bs.len(),
{
    if bs.len() == 0 {
        Seq::empty()
    } else if bs.len() == 1 {
        let b0 = bs[0];
        seq![
            b64_char_of((b0 / 4) as u8),
            b64_char_of(((b0 % 4) * 16) as u8),
            '=',
            '=',
        ]
    } else if bs.len() == 2 {
        let b0 = bs[0];
        let b1 = bs[1];
        seq![
            b64_char_of((b0 / 4) as u8),
            b64_char_of(((b0 % 4) * 16 + b1 / 16) as u8),
            b64_char_of(((b1 % 16) * 4) as u8),
            '=',
        ]
    } else {
        let b0 = bs[0];
        let b1 = bs[1];
        let b2 = bs[2];
        seq![
            b64_char_of((b0 / 4) as u8),
            b64_char_of(((b0 % 4) * 16 + b1 / 16) as u8),
            b64_char_of(((b1 % 16) * 4 + b2 / 64) as u8),
            b64_char_of((b2 % 64) as u8),
        ] + b64_encode(bs.skip(3))
    }
}

/// The bytes encoded by a base64 text, or nothing when the text is not a
/// well-formed encoding.
pub open spec fn b64_decode(s: Seq<char>) -> Option<Seq<u8>>
    decreases s.len(),
{
    if s.len() == 0 {
        Option::Some(Seq::empty())
    } else if s.len() % 4 != 0 {
        Option::None
    } else {
        let v0 = b64_val_of(s[0]);
        let v1 = b64_val_of(s[1]);
        if v0 < 0 || v1 < 0 {
            Option::None
        } else if s.len() == 4 && s[3] == '=' {
            if s[2] == '=' {
                if v1 % 16 != 0 {
                    Option::None
                } else {
                    Option::Some(seq![(v0 * 4 + v1 / 16) as u8])
                }
            } else {
                let v2 = b64_val_of(s[2]);
                if v2 < 0 || v2 % 4 != 0 {
                    Option::None
                } else {
                    Option::Some(
                        seq![(v0 * 4 + v1 / 16) as u8, ((v1 % 16) * 16 + v2 / 4) as u8],
                    )
                }
            }
        } else {
            let v2 = b64_val_of(s[2]);
            let v3 = b64_val_of(s[3]);
            if v2 < 0 || v3 < 0 {
                Option::None
            } else {
                match b64_decode(s.skip(4)) {
                    Option::Some(rest) => Option::Some(
                        seq![
                            (v0 * 4 + v1 / 16) as u8,
                            ((v1 % 16) * 16 + v2 / 4) as u8,
                            ((v2 % 4) * 64 + v3) as u8,
                        ] + rest,
                    ),
                    Option::None => Option::None,
                }
            }
        }
    }
}

pub proof fn lemma_b64_encode_len(bs: Seq<u8>)
    ensures
        b64_encode(bs).len() == ((bs.len() + 2) / 3) * 4,
    decreases bs.len(),
{
    if bs.len() >= 3 {
        lemma_b64_encode_len(bs.skip(3));
    }
}

/// Decoding inverts encoding: base64 is lossless on every byte sequence.
#[verifier::rlimit(60)]
pub proof fn lemma_b64_round_trip(bs: Seq<u8>)
    ensures
        b64_decode(b64_encode(bs)) == Option::Some(bs),
    decreases bs.len(),
{
    let s = b64_encode(bs);
    lemma_b64_encode_len(bs);
    if bs.len() == 0 {
    } else if bs.len() == 1 {
        let b0 = bs[0];
        lemma_b64_val_char((b0 / 4) as u8);
        lemma_b64_val_char(((b0 % 4) * 16) as u8);
        assert(b64_decode(s) =~= Option::Some(bs)) by {
            assert(b64_decode(s)->Some_0 =~= bs);
        }
    } else if bs.len() == 2 {
        let b0 = bs[0];
        let b1 = bs[1];
        lemma_b64_val_char((b0 / 4) as u8);
        lemma_b64_val_char(((b0 % 4) * 16 + b1 / 16) as u8);
        lemma_b64_val_char(((b1 % 16) * 4) as u8);
        assert(b64_decode(s)->Some_0 =~= bs);
    } else {
        let b0 = bs[0];
        let b1 = bs[1];
        let b2 = bs[2];
        lemma_b64_val_char((b0 / 4) as u8);
        lemma_b64_val_char(((b0 % 4) * 16 + b1 / 16) as u8);
        lemma_b64_val_char(((b1 % 16) * 4 + b2 / 64) as u8);
        lemma_b64_val_char((b2 % 64) as u8);
        lemma_b64_round_trip(bs.skip(3));
        assert(s.skip(4) =~= b64_encode(bs.skip(3)));
        assert(b64_decode(s)->Some_0 =~= bs);
    }
}

/// Alphabet character for a six-bit value.
fn b64_char(s: u8) -> (c: char)
    requires
        s < 64,
    ensures
        c == b64_char_of(s),
{
    if s < 26 {
        (s + 65) as char
    } else if s < 52 {
        (s + 71) as char
    } else if s < 62 {
        (s - 4) as char
    } else if s == 62 {
        '+'
    } else {
        '/'
    }
}

/// Six-bit value of a character, or -1 when it is outside the alphabet.
fn b64_val(c: char) -> (v: i8)
    ensures
        v as int == b64_val_of(c),
{
    let u = c as u32;
    if 65 <= u && u <= 90 {
        (u - 65) as i8
    } else if 97 <= u && u <= 122 {
        (u - 71) as i8
    } else if 48 <= u && u <= 57 {
        (u + 4) as i8
    } else if c == '+' {
        62
    } else if c == '/' {
        63
    } else {
        -1
    }
}

/// Base64 text of the given bytes.
pub fn base64_encode(bytes: &Vec<u8>) -> (r: String)
    ensures
        r@ == b64_encode(bytes@),
{
    let n = bytes.len();
    let mut out = String::new();
    let mut i: usize = 0;
    proof {
        assert(bytes@.skip(0) =~= bytes@);
        assert(out@ + b64_encode(bytes@) =~= b64_encode(bytes@));
    }
    while n - i >= 3
        invariant
            i <= n,
            n == bytes@.len(),
            out@ + b64_encode(bytes@.skip(i as int)) == b64_encode(bytes@),
        decreases n - i,
    {
        let ghost i0 = i as int;
        let ghost pre = out@;
        let b0 = bytes[i];
        let b1 = bytes[i + 1];
        let b2 = bytes[i + 2];
        proof {
            assert(bytes@.skip(i0)[0] == b0);
            assert(bytes@.skip(i0)[1] == b1);
            assert(bytes@.skip(i0)[2] == b2);
            assert(bytes@.skip(i0).skip(3) =~= bytes@.skip(i0 + 3));
        }
        push_char(&mut out, b64_char(b0 / 4));
        push_char(&mut out, b64_char((b0 % 4) * 16 + b1 / 16));
        push_char(&mut out, b64_char((b1 % 16) * 4 + b2 / 64));
        push_char(&mut out, b64_char(b2 % 64));
        i = i + 3;
        proof {
            let g = seq![
                b64_char_of((b0 / 4) as u8),
                b64_char_of(((b0 % 4) * 16 + b1 / 16) as u8),
                b64_char_of(((b1 % 16) * 4 + b2 / 64) as u8),
                b64_char_of((b2 % 64) as u8),
            ];
            assert(out@ =~= pre + g);
            assert(b64_encode(bytes@.skip(i0)) == g + b64_encode(bytes@.skip(i as int)));
            assert(pre + (g + b64_encode(bytes@.skip(i as int))) =~= (pre + g) + b64_encode(
                bytes@.skip(i as int),
            ));
        }
    }
    let ghost pre = out@;
    if n - i == 1 {
        let b0 = bytes[i];
        proof {
            assert(bytes@.skip(i as int) =~= seq![b0]);
        }
        push_char(&mut out, b64_char(b0 / 4));
        push_char(&mut out, b64_char((b0 % 4) * 16));
        push_char(&mut out, '=');
        push_char(&mut out, '=');
        proof {
            let g = seq![
                b64_char_of((b0 / 4) as u8),
                b64_char_of(((b0 % 4) * 16) as u8),
                '=',
                '=',
            ];
            assert(out@ =~= pre + g);
            assert(out@ =~= b64_encode(bytes@));
        }
    } else if n - i == 2 {
        let b0 = bytes[i];
        let b1 = bytes[i + 1];
        proof {
            assert(bytes@.skip(i as int) =~= seq![b0, b1]);
        }
        push_char(&mut out, b64_char(b0 / 4));
        push_char(&mut out, b64_char((b0 % 4) * 16 + b1 / 16));
        push_char(&mut out, b64_char((b1 % 16) * 4));
        push_char(&mut out, '=');
        proof {
            let g = seq![
                b64_char_of((b0 / 4) as u8),
                b64_char_of(((b0 % 4) * 16 + b1 / 16) as u8),
                b64_char_of(((b1 % 16) * 4) as u8),
                '=',
            ];
            assert(out@ =~= pre + g);
            assert(out@ =~= b64_encode(bytes@));
        }
    } else {
        proof {
            assert(bytes@.skip(i as int) =~= Seq::<u8>::empty());
            assert(out@ =~= b64_encode(bytes@));
        }
    }
    out
}

/// Prefix bytes prepended to a decode result that is still pending.
pub open spec fn opt_prepend(pre: Seq<u8>, o: Option<Seq<u8>>) -> Option<Seq<u8>> {
    match o {
        Option::Some(r) => Option::Some(pre + r),
        Option::None => Option::None,
    }
}

/// Bytes of a base64 text, or nothing when the text is not a well-formed
/// encoding.
pub fn base64_decode(s: &str) -> (r: Option<Vec<u8>>)
    ensures
        match r {
            Option::Some(v) => b64_decode(s@) == Option::Some(v@),
            Option::None => b64_decode(s@) is None,
        },
{
    let cs = chars_of(s);
    let n = cs.len();
    if n % 4 != 0 {
        return Option::None;
    }
    let mut out: Vec<u8> = Vec::new();
    let mut i: usize = 0;
    proof {
        assert(s@.skip(0) =~= s@);
        if b64_decode(s@) is Some {
            assert(out@ + b64_decode(s@)->Some_0 =~= b64_decode(s@)->Some_0);
        }
    }
    while n - i > 4
        invariant
            i <= n,
            n == cs@.len() == s@.len(),
            cs@ == s@,
            n % 4 == 0,
            i % 4 == 0,
            b64_decode(s@) == opt_prepend(out@, b64_decode(s@.skip(i as int))),
        decreases n - i,
    {
        let ghost i0 = i as int;
        let ghost pre = out@;
        let v0 = b64_val(cs[i]);
        let v1 = b64_val(cs[i + 1]);
        let v2 = b64_val(cs[i + 2]);
        let v3 = b64_val(cs[i + 3]);
        proof {
            let t = s@.skip(i0);
            assert(t[0] == s@[i0]);
            assert(t[1] == s@[i0 + 1]);
            assert(t[2] == s@[i0 + 2]);
            assert(t[3] == s@[i0 + 3]);
            assert(t.len() > 4);
            assert(t.len() % 4 == 0) by {
                assert(t.len() == n - i0);
            }
            assert(t.skip(4) =~= s@.skip(i0 + 4));
        }
        if v0 < 0 || v1 < 0 || v2 < 0 || v3 < 0 {
            return Option::None;
        }
        let v0 = v0 as u8;
        let v1 = v1 as u8;
        let v2 = v2 as u8;
        let v3 = v3 as u8;
        out.push(v0 * 4 + v1 / 16);
        out.push((v1 % 16) * 16 + v2 / 4);
        out.push((v2 % 4) * 64 + v3);
        i = i + 4;
        proof {
            let g = seq![
                (v0 * 4 + v1 / 16) as u8,
                ((v1 % 16) * 16 + v2 / 4) as u8,
                ((v2 % 4) * 64 + v3) as u8,
            ];
            assert(out@ =~= pre + g);
            match b64_decode(s@.skip(i as int)) {
                Option::Some(rest) => {
                    assert(b64_decode(s@.skip(i0)) == Option::Some(g + rest));
                    assert(pre + (g + rest) =~= (pre + g) + rest);
                },
                Option::None => {
                    assert(b64_decode(s@.skip(i0)) is None);
                },
            }
        }
    }
    if i == n {
        proof {
            assert(s@.skip(i as int) =~= Seq::<char>::empty());
            assert(out@ + Seq::<u8>::empty() =~= out@);
        }
        return Option::Some(out);
    }
    // Exactly one group remains; it may carry padding.
    let ghost i0 = i as int;
    let ghost pre = out@;
    let ghost t = s@.skip(i0);
    let v0 = b64_val(cs[i]);
    let v1 = b64_val(cs[i + 1]);
    proof {
        assert(t.len() == 4);
        assert(t[0] == s@[i0]);
        assert(t[1] == s@[i0 + 1]);
        assert(t[2] == s@[i0 + 2]);
        assert(t[3] == s@[i0 + 3]);
    }
    if v0 < 0 || v1 < 0 {
        return Option::None;
    }
    let v0 = v0 as u8;
    let v1 = v1 as u8;
    if cs[i + 3] == '=' {
        if cs[i + 2] == '=' {
            if v1 % 16 != 0 {
                return Option::None;
            }
            out.push(v0 * 4 + v1 / 16);
            proof {
                assert(b64_decode(t) == Option::Some(seq![(v0 * 4 + v1 / 16) as u8]));
                assert(out@ =~= pre + seq![(v0 * 4 + v1 / 16) as u8]);
            }
        } else {
            let v2 = b64_val(cs[i + 2]);
            if v2 < 0 {
                return Option::None;
            }
            let v2 = v2 as u8;
            if v2 % 4 != 0 {
                return Option::None;
            }
            out.push(v0 * 4 + v1 / 16);
            out.push((v1 % 16) * 16 + v2 / 4);
            proof {
                let g = seq![(v0 * 4 + v1 / 16) as u8, ((v1 % 16) * 16 + v2 / 4) as u8];
                assert(b64_decode(t) == Option::Some(g));
                assert(out@ =~= pre + g);
            }
        }
    } else {
        let v2 = b64_val(cs[i + 2]);
        let v3 = b64_val(cs[i + 3]);
        if v2 < 0 || v3 < 0 {
            return Option::None;
        }
        let v2 = v2 as u8;
        let v3 = v3 as u8;
        out.push(v0 * 4 + v1 / 16);
        out.push((v1 % 16) * 16 + v2 / 4);
        out.push((v2 % 4) * 64 + v3);
        proof {
            assert(t.skip(4) =~= Seq::<char>::empty());
            assert(b64_decode(Seq::<char>::empty()) == Option::Some(Seq::<u8>::empty()));
            let g = seq![
                (v0 * 4 + v1 / 16) as u8,
                ((v1 % 16) * 16 + v2 / 4) as u8,
                ((v2 % 4) * 64 + v3) as u8,
            ];
            assert(b64_decode(t) is Some);
            assert(b64_decode(t)->Some_0 =~= g);
            assert(out@ =~= pre + g);
        }
    }
    Option::Some(out)
}

} // verus!
