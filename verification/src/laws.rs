//! Laws of the message pipeline.

use vstd::prelude::*;
use vstd::utf8::{encode_utf8, encode_utf8_decode_utf8, encode_utf8_valid_utf8};
use crate::b64::lemma_b64_round_trip;
use crate::error::ErrorVal;
use crate::json::{wf_val, JsonVal, JsonValue};
use crate::json_props::lemma_parse_doc_ser;
use crate::json_text::ser;
use crate::publisher::encode_data;
use crate::attr::AttrPair;
use crate::json::JsonMemberVal;
use crate::subscriber::{decode_chain, decoded_ok, ReceivedMessageVal};
use crate::transform::{spec_versioned, TransformVal};

verus! {

/// Round trip of the envelope pipeline: decoding a payload that was
/// serialized and encoded by the publish chain, under the identity
/// transform, yields the serialized value back, whatever the envelope's
/// attributes.
pub proof fn lemma_decode_encode_round_trip(m: JsonVal, env: ReceivedMessageVal)
    requires
        wf_val(m),
        env.message.data == Option::Some(encode_data(m)),
    ensures
        decode_chain(env, TransformVal::Identity) == Result::<JsonVal, ErrorVal>::Ok(m),
{
    broadcast use encode_utf8_valid_utf8, encode_utf8_decode_utf8;

    lemma_b64_round_trip(encode_utf8(ser(m)));
    lemma_parse_doc_ser(m);
}

/// The same round trip seen by a caller of the pull pipeline: the message
/// slot of such an envelope's pulled message holds exactly the value that
/// was published.
pub proof fn lemma_pulled_value_exact(
    m: JsonVal,
    env: ReceivedMessageVal,
    r: Result<JsonValue, crate::error::Error>,
)
    requires
        wf_val(m),
        env.message.data == Option::Some(encode_data(m)),
        decoded_ok::<JsonValue>(env, TransformVal::Identity, r),
    ensures
        r matches Result::Ok(v) && v@ == m,
{
    lemma_decode_encode_round_trip(m, env);
}

/// Longest path first: with a tag for the whole payload and a deeper tag for
/// its member `x`, the versioned transform applies the deeper tag first and
/// the outer tag then wraps the already-rewritten result — whatever value
/// stands under `x` and whatever the two tags are.
pub proof fn lemma_longest_path_first(
    attrs: Seq<AttrPair>,
    outer: Seq<char>,
    inner: Seq<char>,
    sub: JsonVal,
)
    requires
        attrs == seq![
            AttrPair { key: seq!['t', 'y', 'p', 'e'], val: outer },
            AttrPair { key: seq!['t', 'y', 'p', 'e', '.', 'x'], val: inner },
        ],
    ensures
        spec_versioned(
            attrs,
            JsonVal::Obj(seq![JsonMemberVal { key: seq!['x'], val: sub }]),
        ) == Result::<JsonVal, crate::error::TransformErrorVal>::Ok(
            JsonVal::Obj(
                seq![
                    JsonMemberVal {
                        key: outer,
                        val: JsonVal::Obj(
                            seq![
                                JsonMemberVal {
                                    key: seq!['x'],
                                    val: JsonVal::Obj(
                                        seq![JsonMemberVal { key: inner, val: sub }],
                                    ),
                                },
                            ],
                        ),
                    },
                ],
            ),
        ),
{
    let payload = JsonVal::Obj(seq![JsonMemberVal { key: seq!['x'], val: sub }]);
    let k0 = seq!['t', 'y', 'p', 'e'];
    let k1 = seq!['t', 'y', 'p', 'e', '.', 'x'];
    // Neither key is `version`, so the scheme defaults to v1.
    assert(crate::attr::attrs_get(attrs, crate::transform::version_key()) is None) by {
        reveal_with_fuel(crate::attr::attrs_get, 4);
        assert(attrs[0].key.len() == 4 && attrs[1].key.len() == 6);
        assert(attrs.drop_first() =~= seq![AttrPair { key: k1, val: inner }]);
        assert(attrs.drop_first().drop_first() =~= Seq::<AttrPair>::empty());
    }
    // The two keys split into one and two segments.
    assert(crate::transform::dot_pos(k0, 0) == 4) by {
        reveal_with_fuel(crate::transform::dot_pos, 6);
    }
    assert(crate::transform::split_dots(k0) =~= seq![k0]) by {
        assert(k0.subrange(0, 4) =~= k0);
    }
    assert(crate::transform::dot_pos(k1, 0) == 4) by {
        reveal_with_fuel(crate::transform::dot_pos, 6);
    }
    assert(crate::transform::dot_pos(k1, 5) == 6) by {
        reveal_with_fuel(crate::transform::dot_pos, 3);
    }
    assert(crate::transform::split_dots(k1) =~= seq![k0, seq!['x']]) by {
        assert(crate::transform::split_from(k1, 5) =~= seq![seq!['x']]) by {
            assert(k1.subrange(5, 6) =~= seq!['x']);
        }
        assert(k1.subrange(0, 4) =~= k0);
        assert(crate::transform::split_from(k1, 0) == seq![k1.subrange(0, 4)]
            + crate::transform::split_from(k1, 5));
    }
    assert(crate::transform::is_type_key(k0));
    assert(crate::transform::is_type_key(k1)) by {
        assert(k1.take(5) =~= crate::transform::type_key().push('.'));
    }
    assert(crate::transform::max_depth_from(attrs, 0) == 1) by {
        reveal_with_fuel(crate::transform::max_depth_from, 4);
    }
    // Depth one: only the deeper key applies, inside `x`.
    let mid = JsonVal::Obj(
        seq![
            JsonMemberVal {
                key: seq!['x'],
                val: JsonVal::Obj(seq![JsonMemberVal { key: inner, val: sub }]),
            },
        ],
    );
    assert(crate::transform::apply_tag(payload, seq![k0, seq!['x']], 1, inner) == mid) by {
        assert(crate::json::obj_get(payload->Obj_0, seq!['x']) == Option::Some(sub));
        assert(crate::transform::apply_tag(sub, seq![k0, seq!['x']], 2, inner) == JsonVal::Obj(
            seq![JsonMemberVal { key: inner, val: sub }],
        ));
        assert(crate::json::obj_set(
            payload->Obj_0,
            seq!['x'],
            JsonVal::Obj(seq![JsonMemberVal { key: inner, val: sub }]),
        ) =~= mid->Obj_0);
    }
    assert(crate::transform::apply_depth_from(attrs, 0, 1, payload) == mid) by {
        reveal_with_fuel(crate::transform::apply_depth_from, 4);
    }
    // Depth zero: the outer tag wraps the already-rewritten payload.
    let outer_obj = JsonVal::Obj(seq![JsonMemberVal { key: outer, val: mid }]);
    assert(crate::transform::apply_tag(mid, seq![k0], 1, outer) == outer_obj);
    assert(crate::transform::apply_depth_from(attrs, 0, 0, mid) == outer_obj) by {
        reveal_with_fuel(crate::transform::apply_depth_from, 4);
    }
    assert(crate::transform::apply_down(attrs, 1, payload) == outer_obj) by {
        assert(crate::transform::apply_down(attrs, -1, outer_obj) == outer_obj);
        assert(crate::transform::apply_down(attrs, 0, mid) == outer_obj);
    }
}

} // verus!

