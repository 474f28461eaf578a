//! Attribute-driven reshaping of pulled JSON payloads.
//!
//! Three strategies are provided. `Identity` hands the payload through.
//! `InsertAttribute` copies one attribute into the payload object, so a
//! tagged-union deserializer downstream can dispatch on it.
//! `VersionedTypeTag` reads the `version` attribute (`v1` when absent):
//! under `v1` the attribute keys `type`, `type.a`, `type.a.b`, ... name
//! positions in the payload, and each position is wrapped in a single-key
//! object whose key is the attribute's value — deepest paths first, so a
//! shallow rewrite never clobbers a deeper one, and keys of equal depth in
//! attribute order; under `v2` the payload passes unchanged; any other
//! version is rejected.

use vstd::prelude::*;
use vstd::string::StringExecFns;
use crate::attr::{attrs_get, AttrPair, Attributes};
use crate::error::{Error, ErrorVal, TransformError, TransformErrorVal};
use crate::json::{
    lemma_obj_get_found, lemma_obj_get_missing, lemma_obj_set_found, lemma_obj_set_missing,
    members_of, obj_get, obj_set, JsonMemberVal, JsonVal, JsonValue,
};
use crate::subscriber::ReceivedMessage;
use crate::text::{chars_of, push_char, str_eq, strs_view};

verus! {

/// The characters of the attribute key `type`.
pub open spec fn type_key() -> Seq<char> {
    seq!['t', 'y', 'p', 'e']
}

/// The characters of the attribute key `version`.
pub open spec fn version_key() -> Seq<char> {
    seq!['v', 'e', 'r', 's', 'i', 'o', 'n']
}

/// Position of the first dot at or after `i`, or the length.
pub open spec fn dot_pos(s: Seq<char>, i: int) -> int
    decreases s.len() - i,
{
    if 0 <= i < s.len() {
        if s[i] == '.' {
            i
        } else {
            dot_pos(s, i + 1)
        }
    } else {
        s.len() as int
    }
}

/// The dot-separated segments of `s` from position `i` on.
pub open spec fn split_from(s: Seq<char>, i: int) -> Seq<Seq<char>>
    decreases s.len() - i,
{
    let p = dot_pos(s, i);
    if 0 <= i <= p && p < s.len() {
        seq![s.subrange(i, p)] + split_from(s, p + 1)
    } else {
        seq![s.subrange(i, s.len() as int)]
    }
}

/// The dot-separated segments of a key.
pub open spec fn split_dots(s: Seq<char>) -> Seq<Seq<char>> {
    split_from(s, 0)
}

/// Whether a key addresses the versioned transform: `type` itself or
/// `type.` followed by a path.
pub open spec fn is_type_key(key: Seq<char>) -> bool {
    key == type_key() || (key.len() >= 5 && key.take(5) == type_key().push('.'))
}

/// Wraps the position reached by `path[pi..]` inside `value` in a
/// single-key object `{ tag: <sub-value> }`. A path that does not resolve
/// leaves the value unchanged.
pub open spec fn apply_tag(value: JsonVal, path: Seq<Seq<char>>, pi: int, tag: Seq<char>) -> JsonVal
    decreases path.len() - pi,
{
    if pi < 0 || pi >= path.len() {
        JsonVal::Obj(seq![JsonMemberVal { key: tag, val: value }])
    } else {
        match value {
            JsonVal::Obj(o) => match obj_get(o, path[pi]) {
                Option::Some(sub) => JsonVal::Obj(
                    obj_set(o, path[pi], apply_tag(sub, path, pi + 1, tag)),
                ),
                Option::None => JsonVal::Obj(o),
            },
            _ => value,
        }
    }
}

/// Applies every `type` key of exactly depth `d`, in attribute order, from
/// position `k` on.
pub open spec fn apply_depth_from(attrs: Seq<AttrPair>, k: int, d: int, value: JsonVal) -> JsonVal
    decreases attrs.len() - k,
{
    if k < 0 || k >= attrs.len() {
        value
    } else {
        let v2 = if is_type_key(attrs[k].key) && split_dots(attrs[k].key).len() - 1 == d {
            apply_tag(value, split_dots(attrs[k].key), 1, attrs[k].val)
        } else {
            value
        };
        apply_depth_from(attrs, k + 1, d, v2)
    }
}

/// Applies the `type` keys depth by depth, deepest first.
pub open spec fn apply_down(attrs: Seq<AttrPair>, d: int, value: JsonVal) -> JsonVal
    decreases d + 1,
{
    if d < 0 {
        value
    } else {
        apply_down(attrs, d - 1, apply_depth_from(attrs, 0, d, value))
    }
}

/// Largest depth of a `type` key from position `k` on.
pub open spec fn max_depth_from(attrs: Seq<AttrPair>, k: int) -> int
    decreases attrs.len() - k,
{
    if k < 0 || k >= attrs.len() {
        0
    } else {
        let rest = max_depth_from(attrs, k + 1);
        let d = if is_type_key(attrs[k].key) {
            split_dots(attrs[k].key).len() - 1
        } else {
            0
        };
        if d > rest {
            d
        } else {
            rest
        }
    }
}

/// The versioned type-tag transform, in the mathematical model.
pub open spec fn spec_versioned(attrs: Seq<AttrPair>, value: JsonVal) -> Result<
    JsonVal,
    TransformErrorVal,
> {
    let version = match attrs_get(attrs, version_key()) {
        Option::Some(v) => v,
        Option::None => seq!['v', '1'],
    };
    if version == seq!['v', '2'] {
        Result::Ok(value)
    } else if version == seq!['v', '1'] {
        Result::Ok(apply_down(attrs, max_depth_from(attrs, 0), value))
    } else {
        Result::Err(TransformErrorVal::UnknownVersion(version))
    }
}

/// The insert-attribute transform, in the mathematical model.
pub open spec fn spec_insert_attribute(
    key: Seq<char>,
    attrs: Seq<AttrPair>,
    value: JsonVal,
) -> Result<JsonVal, TransformErrorVal> {
    match attrs_get(attrs, key) {
        Option::None => Result::Err(TransformErrorVal::MissingAttribute(key)),
        Option::Some(av) => match value {
            JsonVal::Obj(o) => Result::Ok(JsonVal::Obj(obj_set(o, key, JsonVal::Str(av)))),
            _ => Result::Err(TransformErrorVal::UnexpectedValue(value)),
        },
    }
}

/// A payload transform, in the mathematical model.
pub enum TransformVal {
    Identity,
    InsertAttribute(Seq<char>),
    VersionedTypeTag,
}

/// A payload transform: pure, synchronous, chosen per pull call.
#[derive(Debug, PartialEq, Eq)]
pub enum Transform {
    /// Hands the payload through unchanged.
    Identity,
    /// Inserts the named attribute into the payload object.
    InsertAttribute(String),
    /// Reshapes the payload under the `version` attribute's scheme.
    VersionedTypeTag,
}

impl View for Transform {
    type V = TransformVal;

    open spec fn view(&self) -> TransformVal {
        match self {
            Transform::Identity => TransformVal::Identity,
            Transform::InsertAttribute(k) => TransformVal::InsertAttribute(k@),
            Transform::VersionedTypeTag => TransformVal::VersionedTypeTag,
        }
    }
}

/// What a transform does to a payload, in the mathematical model.
pub open spec fn spec_apply(t: TransformVal, attrs: Seq<AttrPair>, value: JsonVal) -> Result<
    JsonVal,
    TransformErrorVal,
> {
    match t {
        TransformVal::Identity => Result::Ok(value),
        TransformVal::InsertAttribute(k) => spec_insert_attribute(k, attrs, value),
        TransformVal::VersionedTypeTag => spec_versioned(attrs, value),
    }
}

/// No dot stands in `[a, i)` and one stands at `i`: the scan lands on `i`.
proof fn lemma_dot_pos_exact(s: Seq<char>, a: int, i: int)
    requires
        0 <= a <= i < s.len(),
        s[i] == '.',
        forall|k: int| a <= k < i ==> #[trigger] s[k] != '.',
    ensures
        dot_pos(s, a) == i,
    decreases i - a,
{
    if a < i {
        lemma_dot_pos_exact(s, a + 1, i);
    }
}

/// No dot stands in `[a, len)`: the scan lands on the end.
proof fn lemma_dot_pos_end(s: Seq<char>, a: int)
    requires
        0 <= a <= s.len(),
        forall|k: int| a <= k < s.len() ==> #[trigger] s[k] != '.',
    ensures
        dot_pos(s, a) == s.len(),
    decreases s.len() - a,
{
    if a < s.len() {
        lemma_dot_pos_end(s, a + 1);
    }
}

/// Splits a key on dots, executable form.
fn split_dots_x(s: &str) -> (r: Vec<String>)
    ensures
        strs_view(r@) == split_dots(s@),
        r@.len() >= 1,
{
    let cs = chars_of(s);
    let n = cs.len();
    let mut out: Vec<String> = Vec::new();
    let mut cur = String::new();
    let mut i: usize = 0;
    let ghost mut seg_start = 0int;
    proof {
        assert(cur@ =~= s@.subrange(0, 0));
        assert(strs_view(out@) =~= Seq::<Seq<char>>::empty());
        assert(strs_view(out@) + split_from(s@, 0) =~= split_from(s@, 0));
    }
    while i < n
        invariant
            0 <= seg_start <= i <= n,
            n == cs@.len(),
            cs@ == s@,
            cur@ == s@.subrange(seg_start, i as int),
            forall|k: int| seg_start <= k < i ==> #[trigger] s@[k] != '.',
            split_dots(s@) == strs_view(out@) + split_from(s@, seg_start),
        decreases n - i,
    {
        let c = cs[i];
        if c == '.' {
            let ghost old_out = out@;
            let ghost seg = s@.subrange(seg_start, i as int);
            proof {
                lemma_dot_pos_exact(s@, seg_start, i as int);
                assert(split_from(s@, seg_start) == seq![seg] + split_from(s@, i + 1));
            }
            out.push(cur);
            cur = String::new();
            proof {
                assert(strs_view(out@) =~= strs_view(old_out).push(seg));
                assert(strs_view(old_out) + (seq![seg] + split_from(s@, i + 1)) =~= strs_view(
                    out@,
                ) + split_from(s@, i + 1));
            }
            i = i + 1;
            proof {
                seg_start = i as int;
                assert(cur@ =~= s@.subrange(seg_start, i as int));
            }
        } else {
            push_char(&mut cur, c);
            i = i + 1;
            proof {
                assert(cur@ =~= s@.subrange(seg_start, i as int));
            }
        }
    }
    let ghost old_out = out@;
    let ghost seg = s@.subrange(seg_start, n as int);
    proof {
        lemma_dot_pos_end(s@, seg_start);
        assert(split_from(s@, seg_start) == seq![seg]);
    }
    out.push(cur);
    proof {
        assert(strs_view(out@) =~= strs_view(old_out).push(seg));
        assert(strs_view(old_out) + seq![seg] =~= strs_view(out@));
    }
    out
}

/// Whether a key addresses the versioned transform, executable form.
fn is_type_key_x(key: &str) -> (r: bool)
    ensures
        r == is_type_key(key@),
{
    let cs = chars_of(key);
    if cs.len() == 4 && cs[0] == 't' && cs[1] == 'y' && cs[2] == 'p' && cs[3] == 'e' {
        proof {
            assert(key@ =~= type_key());
        }
        true
    } else if cs.len() >= 5 && cs[0] == 't' && cs[1] == 'y' && cs[2] == 'p' && cs[3] == 'e'
        && cs[4] == '.' {
        proof {
            assert(key@.take(5) =~= type_key().push('.'));
        }
        true
    } else {
        proof {
            if key@ == type_key() {
                assert(cs@.len() == 4 && cs@[0] == 't' && cs@[1] == 'y' && cs@[2] == 'p'
                    && cs@[3] == 'e');
            }
            if key@.len() >= 5 && key@.take(5) == type_key().push('.') {
                assert(cs@[0] == key@.take(5)[0]);
                assert(cs@[1] == key@.take(5)[1]);
                assert(cs@[2] == key@.take(5)[2]);
                assert(cs@[3] == key@.take(5)[3]);
                assert(cs@[4] == key@.take(5)[4]);
            }
        }
        false
    }
}

/// Wraps the position reached by `path[pi..]` inside `value`, executable
/// form.
fn apply_tag_x(value: JsonValue, path: &Vec<String>, pi: usize, tag: &String) -> (r: JsonValue)
    ensures
        r@ == apply_tag(value@, strs_view(path@), pi as int, tag@),
    decreases value,
{
    let ghost pv = strs_view(path@);
    if pi >= path.len() {
        let mut members: Vec<(String, JsonValue)> = Vec::new();
        let ghost value_v = value@;
        members.push((tag.clone(), value));
        let r = JsonValue::Object(members);
        proof {
            assert(r@->Obj_0 =~= seq![JsonMemberVal { key: tag@, val: value_v }]);
        }
        r
    } else {
        match value {
            JsonValue::Object(mut o) => {
                let ghost value_v = JsonValue::Object(o)@;
                let ghost ms = value_v->Obj_0;
                proof {
                    assert(ms =~= members_of(o@));
                }
                let seg = &path[pi];
                let n = o.len();
                let mut idx: usize = 0;
                let mut found = false;
                while idx < n && !found
                    invariant
                        idx <= n,
                        n == o@.len(),
                        ms == members_of(o@),
                        ms.len() == n,
                        !found ==> forall|k: int|
                            0 <= k < idx ==> (#[trigger] ms[k]).key != seg@,
                        found ==> idx < n && ms[idx as int].key == seg@ && forall|k: int|
                            0 <= k < idx ==> (#[trigger] ms[k]).key != seg@,
                    decreases n - idx, if found { 0int } else { 1int },
                {
                    if str_eq(o[idx].0.as_str(), seg.as_str()) {
                        found = true;
                    } else {
                        idx = idx + 1;
                    }
                }
                if found {
                    let ghost o_before = o@;
                    let (k, sub) = o.remove(idx);
                    proof {
                        assert(decreases_to!(value => value->Object_0));
                        assert(decreases_to!(value->Object_0 => value->Object_0@));
                        assert(decreases_to!(value->Object_0@ => value->Object_0@[idx as int]));
                        assert(decreases_to!(value->Object_0@[idx as int] => value->Object_0@[idx as int].1));
                        assert(sub == o_before[idx as int].1);
                    }
                    let new_sub = apply_tag_x(sub, path, pi + 1, tag);
                    o.insert(idx, (k, new_sub));
                    proof {
                        assert(o@ =~= o_before.update(idx as int, (k, new_sub)));
                        lemma_obj_get_found(ms, seg@, idx as int);
                        lemma_obj_set_found(
                            ms,
                            seg@,
                            apply_tag(sub@, pv, pi + 1 as int, tag@),
                            idx as int,
                        );
                        assert(members_of(o@) =~= obj_set(
                            ms,
                            seg@,
                            apply_tag(sub@, pv, pi + 1 as int, tag@),
                        )) by {
                            assert(ms[idx as int].key == k@);
                        }
                        assert(JsonValue::Object(o)@->Obj_0 =~= members_of(o@));
                    }
                    JsonValue::Object(o)
                } else {
                    proof {
                        lemma_obj_get_missing(ms, seg@);
                        assert(JsonValue::Object(o)@->Obj_0 =~= ms);
                    }
                    JsonValue::Object(o)
                }
            },
            v => {
                proof {
                    assert(!(v@ is Obj));
                }
                v
            },
        }
    }
}

/// The insert-attribute transform, on its parts.
pub fn insert_attribute_parts(key: &str, attrs: &Attributes, value: JsonValue) -> (r: Result<
    JsonValue,
    TransformError,
>)
    ensures
        match (spec_insert_attribute(key@, attrs@, value@), r) {
            (Result::Ok(m), Result::Ok(v)) => v@ == m,
            (Result::Err(me), Result::Err(e)) => e@ == me,
            _ => false,
        },
{
    match attrs.get(key) {
        Option::None => Result::Err(TransformError::MissingAttribute(String::from_str(key))),
        Option::Some(av) => {
            let av = av.clone();
            let ghost value_v = value@;
            let ghost av_v = av@;
            match value {
                JsonValue::Object(o) => {
                    let ghost ms = members_of(o@);
                    proof {
                        assert(JsonValue::Object(o)@->Obj_0 =~= ms);
                    }
                    let mut o = o;
                    let n = o.len();
                    let mut idx: usize = 0;
                    while idx < n
                        invariant
                            idx <= n,
                            n == o@.len(),
                            ms == members_of(o@),
                            value_v == JsonVal::Obj(ms),
                            value@ == value_v,
                            av@ == av_v,
                            attrs_get(attrs@, key@) == Option::Some(av_v),
                            forall|k: int| 0 <= k < idx ==> (#[trigger] ms[k]).key != key@,
                        decreases n - idx,
                    {
                        if str_eq(o[idx].0.as_str(), key) {
                            let ghost o_before = o@;
                            o[idx] = (String::from_str(key), JsonValue::Str(av));
                            proof {
                                lemma_obj_set_found(
                                    ms,
                                    key@,
                                    JsonVal::Str(av@),
                                    idx as int,
                                );
                                assert(members_of(o@) =~= obj_set(ms, key@, JsonVal::Str(av@)));
                                assert(JsonValue::Object(o)@->Obj_0 =~= members_of(o@));
                            }
                            return Result::Ok(JsonValue::Object(o));
                        }
                        idx = idx + 1;
                    }
                    o.push((String::from_str(key), JsonValue::Str(av)));
                    proof {
                        lemma_obj_set_missing(ms, key@, JsonVal::Str(av@));
                        assert(members_of(o@) =~= obj_set(ms, key@, JsonVal::Str(av@)));
                        assert(JsonValue::Object(o)@->Obj_0 =~= members_of(o@));
                    }
                    Result::Ok(JsonValue::Object(o))
                },
                v => Result::Err(TransformError::UnexpectedValue(v)),
            }
        },
    }
}

/// Applies every `type` key of one depth in attribute order, executable
/// form.
fn apply_depth_x(attrs: &Attributes, d: usize, value: JsonValue) -> (r: JsonValue)
    ensures
        r@ == apply_depth_from(attrs@, 0, d as int, value@),
{
    let n = attrs.len();
    let mut v = value;
    let mut k: usize = 0;
    while k < n
        invariant
            k <= n,
            n == attrs@.len(),
            apply_depth_from(attrs@, 0, d as int, value@) == apply_depth_from(
                attrs@,
                k as int,
                d as int,
                v@,
            ),
        decreases n - k,
    {
        let key = attrs.key_at(k);
        if is_type_key_x(key.as_str()) {
            let parts = split_dots_x(key.as_str());
            if parts.len() - 1 == d {
                let tag = attrs.val_at(k).clone();
                v = apply_tag_x(v, &parts, 1, &tag);
            }
        }
        k = k + 1;
    }
    v
}

/// The versioned type-tag transform, on its parts.
pub fn versioned_parts(attrs: &Attributes, value: JsonValue) -> (r: Result<
    JsonValue,
    TransformError,
>)
    ensures
        match (spec_versioned(attrs@, value@), r) {
            (Result::Ok(m), Result::Ok(v)) => v@ == m,
            (Result::Err(me), Result::Err(e)) => e@ == me,
            _ => false,
        },
{
    proof {
        reveal_strlit("version");
        reveal_strlit("v1");
        reveal_strlit("v2");
        assert("version"@ =~= version_key());
        assert("v1"@ =~= seq!['v', '1']);
        assert("v2"@ =~= seq!['v', '2']);
    }
    let version_known = attrs.get("version");
    let is_v1: bool;
    match version_known {
        Option::Some(v) => {
            if str_eq(v.as_str(), "v2") {
                return Result::Ok(value);
            } else if str_eq(v.as_str(), "v1") {
                is_v1 = true;
            } else {
                return Result::Err(TransformError::UnknownVersion(v.clone()));
            }
        },
        Option::None => {
            is_v1 = true;
        },
    }
    // Version v1: find the deepest type key, then apply depths downward.
    let n = attrs.len();
    let mut maxd: usize = 0;
    let mut k: usize = n;
    while k > 0
        invariant
            k <= n,
            n == attrs@.len(),
            maxd == max_depth_from(attrs@, k as int),
        decreases k,
    {
        k = k - 1;
        let key = attrs.key_at(k);
        if is_type_key_x(key.as_str()) {
            let parts = split_dots_x(key.as_str());
            let d = parts.len() - 1;
            if d > maxd {
                maxd = d;
            }
        }
    }
    let ghost value_v = value@;
    let mut v = value;
    let mut d: usize = maxd;
    while d > 0
        invariant
            d <= maxd,
            n == attrs@.len(),
            maxd == max_depth_from(attrs@, 0),
            apply_down(attrs@, maxd as int, value_v) == apply_down(attrs@, d as int, v@),
        decreases d,
    {
        v = apply_depth_x(attrs, d, v);
        d = d - 1;
    }
    let ghost before_last = v@;
    let r = apply_depth_x(attrs, 0, v);
    proof {
        let df = apply_depth_from(attrs@, 0, 0, before_last);
        assert(apply_down(attrs@, -1, df) == df);
        assert(apply_down(attrs@, 0, before_last) == apply_down(attrs@, -1, df));
    }
    Result::Ok(r)
}

/// What a transform does to a payload, on its parts.
pub fn apply_parts(t: &Transform, attrs: &Attributes, value: JsonValue) -> (r: Result<
    JsonValue,
    TransformError,
>)
    ensures
        match (spec_apply(t@, attrs@, value@), r) {
            (Result::Ok(m), Result::Ok(v)) => v@ == m,
            (Result::Err(me), Result::Err(e)) => e@ == me,
            _ => false,
        },
{
    match t {
        Transform::Identity => Result::Ok(value),
        Transform::InsertAttribute(k) => insert_attribute_parts(k.as_str(), attrs, value),
        Transform::VersionedTypeTag => versioned_parts(attrs, value),
    }
}

impl Transform {
    /// Applies this transform to a pulled message's payload.
    pub fn apply(&self, received_message: &ReceivedMessage, value: JsonValue) -> (r: Result<
        JsonValue,
        Error,
    >)
        ensures
            match (spec_apply(self@, received_message@.message.attributes, value@), r) {
                (Result::Ok(m), Result::Ok(v)) => v@ == m,
                (Result::Err(me), Result::Err(e)) => e@ == ErrorVal::Transform(me),
                _ => false,
            },
    {
        match apply_parts(self, &received_message.message.attributes, value) {
            Result::Ok(v) => Result::Ok(v),
            Result::Err(te) => Result::Err(Error::Transform(te)),
        }
    }
}

/// The identity transform: returns the payload unchanged. Always succeeds.
pub fn identity(received_message: &ReceivedMessage, value: JsonValue) -> (r: Result<
    JsonValue,
    Error,
>)
    ensures
        r == Result::<JsonValue, Error>::Ok(value),
{
    Result::Ok(value)
}

/// The insert-attribute transform: requires `attributes[key]` to exist and
/// the payload to be a JSON object; inserts `key` with the attribute's value
/// into the object.
pub fn insert_attribute(key: &str, received_message: &ReceivedMessage, value: JsonValue) -> (r:
    Result<JsonValue, Error>)
    ensures
        match (
            spec_insert_attribute(key@, received_message@.message.attributes, value@),
            r,
        ) {
            (Result::Ok(m), Result::Ok(v)) => v@ == m,
            (Result::Err(me), Result::Err(e)) => e@ == ErrorVal::Transform(me),
            _ => false,
        },
{
    match insert_attribute_parts(key, &received_message.message.attributes, value) {
        Result::Ok(v) => Result::Ok(v),
        Result::Err(te) => Result::Err(Error::Transform(te)),
    }
}

} // verus!



