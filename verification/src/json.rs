//! The JSON document model used on the wire.
//!
//! `JsonValue` is the executable representation; its mathematical model is
//! `JsonVal`, reached through `@`. Numbers are restricted to signed 64-bit
//! integers (the wire shapes of this service carry only counters and
//! identifiers; fractional numbers are out of scope). Objects are ordered
//! sequences of key/value pairs: insertion order is kept, and lookups return
//! the first binding of a key.

use vstd::prelude::*;

verus! {

/// One key/value binding in the model of a JSON object.
pub struct JsonMemberVal {
    pub key: Seq<char>,
    pub val: JsonVal,
}

/// Mathematical model of a JSON document.
pub enum JsonVal {
    Null,
    Bool(bool),
    Int(int),
    Str(Seq<char>),
    Arr(Seq<JsonVal>),
    Obj(Seq<JsonMemberVal>),
}

/// Executable JSON document.
#[derive(Debug, PartialEq, Eq)]
pub enum JsonValue {
    Null,
    Bool(bool),
    Int(i64),
    Str(String),
    Array(Vec<JsonValue>),
    Object(Vec<(String, JsonValue)>),
}

impl View for JsonValue {
    type V = JsonVal;

    open spec fn view(&self) -> JsonVal
        decreases self,
    {
        match self {
            JsonValue::Null => JsonVal::Null,
            JsonValue::Bool(b) => JsonVal::Bool(*b),
            JsonValue::Int(n) => JsonVal::Int(*n as int),
            JsonValue::Str(s) => JsonVal::Str(s@),
            JsonValue::Array(a) => JsonVal::Arr(
                Seq::new(
                    a.len() as nat,
                    |i: int|
                        if 0 <= i < a.len() {
                            a[i]@
                        } else {
                            JsonVal::Null
                        },
                ),
            ),
            JsonValue::Object(o) => JsonVal::Obj(
                Seq::new(
                    o.len() as nat,
                    |i: int|
                        if 0 <= i < o.len() {
                            JsonMemberVal { key: o[i].0@, val: o[i].1@ }
                        } else {
                            JsonMemberVal { key: Seq::empty(), val: JsonVal::Null }
                        },
                ),
            ),
        }
    }
}

/// First binding of `key` in the model of an object's member sequence.
pub open spec fn obj_get(pairs: Seq<JsonMemberVal>, key: Seq<char>) -> Option<JsonVal>
    decreases pairs.len(),
{
    if pairs.len() == 0 {
        Option::None
    } else if pairs[0].key == key {
        Option::Some(pairs[0].val)
    } else {
        obj_get(pairs.drop_first(), key)
    }
}

/// A model value that an executable `JsonValue` can hold: every integer fits
/// in a signed 64-bit value.
pub open spec fn wf_val(m: JsonVal) -> bool
    decreases m,
{
    match m {
        JsonVal::Int(n) => -0x8000000000000000 <= n <= 0x7FFFFFFFFFFFFFFF,
        JsonVal::Arr(a) => forall|k: int| 0 <= k < a.len() ==> wf_val(#[trigger] a[k]),
        JsonVal::Obj(o) => forall|k: int| 0 <= k < o.len() ==> wf_val(#[trigger] o[k].val),
        _ => true,
    }
}

/// The model of an executable value is always well-formed.
pub proof fn lemma_view_wf(v: JsonValue)
    ensures
        wf_val(v@),
    decreases v,
{
    match v {
        JsonValue::Array(a) => {
            assert forall|k: int| 0 <= k < v@->Arr_0.len() implies wf_val(
                #[trigger] v@->Arr_0[k],
            ) by {
                assert(decreases_to!(v => v->Array_0));
                assert(decreases_to!(v->Array_0 => v->Array_0@));
                assert(decreases_to!(v->Array_0@ => v->Array_0@[k]));
                lemma_view_wf(a@[k]);
            }
        },
        JsonValue::Object(o) => {
            assert forall|k: int| 0 <= k < v@->Obj_0.len() implies wf_val(
                #[trigger] v@->Obj_0[k].val,
            ) by {
                assert(decreases_to!(v => v->Object_0));
                assert(decreases_to!(v->Object_0 => v->Object_0@));
                assert(decreases_to!(v->Object_0@ => v->Object_0@[k]));
                assert(decreases_to!(v->Object_0@[k] => v->Object_0@[k].1));
                lemma_view_wf(o@[k].1);
            }
        },
        _ => {},
    }
}

/// The member sequence after binding `key` to `val`: the first binding of
/// `key` is replaced in place, or a new one is appended.
pub open spec fn obj_set(pairs: Seq<JsonMemberVal>, key: Seq<char>, val: JsonVal) -> Seq<
    JsonMemberVal,
>
    decreases pairs.len(),
{
    if pairs.len() == 0 {
        seq![JsonMemberVal { key, val }]
    } else if pairs[0].key == key {
        seq![JsonMemberVal { key, val }] + pairs.drop_first()
    } else {
        seq![pairs[0]] + obj_set(pairs.drop_first(), key, val)
    }
}

/// Model of an executable member list.
pub open spec fn members_of(s: Seq<(String, JsonValue)>) -> Seq<JsonMemberVal> {
    Seq::new(
        s.len(),
        |i: int|
            if 0 <= i < s.len() {
                JsonMemberVal { key: s[i].0@, val: s[i].1@ }
            } else {
                JsonMemberVal { key: Seq::empty(), val: JsonVal::Null }
            },
    )
}

/// Replacing a key that first occurs at `i` rewrites exactly that entry.
pub proof fn lemma_obj_set_found(pairs: Seq<JsonMemberVal>, key: Seq<char>, val: JsonVal, i: int)
    requires
        0 <= i < pairs.len(),
        pairs[i].key == key,
        forall|k: int| 0 <= k < i ==> (#[trigger] pairs[k]).key != key,
    ensures
        obj_set(pairs, key, val) =~= pairs.update(i, JsonMemberVal { key, val }),
    decreases pairs.len(),
{
    if i == 0 {
    } else {
        assert forall|k: int| 0 <= k < i - 1 implies (#[trigger] pairs.drop_first()[k]).key
            != key by {
            assert(pairs.drop_first()[k] == pairs[k + 1]);
        }
        assert(pairs.drop_first()[i - 1] == pairs[i]);
        lemma_obj_set_found(pairs.drop_first(), key, val, i - 1);
        assert(pairs[0].key != key);
    }
}

/// Binding an absent key appends it.
pub proof fn lemma_obj_set_missing(pairs: Seq<JsonMemberVal>, key: Seq<char>, val: JsonVal)
    requires
        forall|k: int| 0 <= k < pairs.len() ==> (#[trigger] pairs[k]).key != key,
    ensures
        obj_set(pairs, key, val) =~= pairs.push(JsonMemberVal { key, val }),
    decreases pairs.len(),
{
    if pairs.len() > 0 {
        assert forall|k: int|
            0 <= k < pairs.drop_first().len() implies (#[trigger] pairs.drop_first()[k]).key
            != key by {
            assert(pairs.drop_first()[k] == pairs[k + 1]);
        }
        lemma_obj_set_missing(pairs.drop_first(), key, val);
    }
}

/// A key whose first binding stands at `i` resolves to that binding.
pub proof fn lemma_obj_get_found(pairs: Seq<JsonMemberVal>, key: Seq<char>, i: int)
    requires
        0 <= i < pairs.len(),
        pairs[i].key == key,
        forall|k: int| 0 <= k < i ==> (#[trigger] pairs[k]).key != key,
    ensures
        obj_get(pairs, key) == Option::Some(pairs[i].val),
    decreases pairs.len(),
{
    if i > 0 {
        assert forall|k: int| 0 <= k < i - 1 implies (#[trigger] pairs.drop_first()[k]).key
            != key by {
            assert(pairs.drop_first()[k] == pairs[k + 1]);
        }
        assert(pairs.drop_first()[i - 1] == pairs[i]);
        lemma_obj_get_found(pairs.drop_first(), key, i - 1);
    }
}

/// A key with no binding resolves to nothing.
pub proof fn lemma_obj_get_missing(pairs: Seq<JsonMemberVal>, key: Seq<char>)
    requires
        forall|k: int| 0 <= k < pairs.len() ==> (#[trigger] pairs[k]).key != key,
    ensures
        obj_get(pairs, key) is None,
    decreases pairs.len(),
{
    if pairs.len() > 0 {
        assert forall|k: int|
            0 <= k < pairs.drop_first().len() implies (#[trigger] pairs.drop_first()[k]).key
            != key by {
            assert(pairs.drop_first()[k] == pairs[k + 1]);
        }
        lemma_obj_get_missing(pairs.drop_first(), key);
    }
}

/// First member bound to `key` in a member list, executable form.
pub fn get_member<'a>(o: &'a Vec<(String, JsonValue)>, key: &str) -> (r: Option<&'a JsonValue>)
    ensures
        match r {
            Option::Some(v) => obj_get(members_of(o@), key@) == Option::Some(v@),
            Option::None => obj_get(members_of(o@), key@) is None,
        },
{
    let ghost ms = members_of(o@);
    let n = o.len();
    let mut i: usize = 0;
    proof {
        assert(ms.skip(0) =~= ms);
    }
    while i < n
        invariant
            i <= n,
            n == o@.len(),
            ms == members_of(o@),
            obj_get(ms, key@) == obj_get(ms.skip(i as int), key@),
        decreases n - i,
    {
        proof {
            let t = ms.skip(i as int);
            assert(t[0] == ms[i as int]);
            assert(t.drop_first() =~= ms.skip(i + 1));
        }
        if crate::text::str_eq(o[i].0.as_str(), key) {
            return Option::Some(&o[i].1);
        }
        i = i + 1;
    }
    proof {
        assert(ms.skip(n as int) =~= Seq::<JsonMemberVal>::empty());
    }
    Option::None
}

/// Models of an executable value list.
pub open spec fn vals_of(s: Seq<JsonValue>) -> Seq<JsonVal> {
    Seq::new(
        s.len(),
        |i: int|
            if 0 <= i < s.len() {
                s[i]@
            } else {
                JsonVal::Null
            },
    )
}

/// Wraps a value list as a JSON array.
pub fn array_of(items: Vec<JsonValue>) -> (r: JsonValue)
    ensures
        r@ == JsonVal::Arr(vals_of(items@)),
{
    let r = JsonValue::Array(items);
    proof {
        assert(r@->Arr_0 =~= vals_of(r->Array_0@));
    }
    r
}

/// Wraps a member list as a JSON object.
pub fn object_of(members: Vec<(String, JsonValue)>) -> (r: JsonValue)
    ensures
        r@ == JsonVal::Obj(members_of(members@)),
{
    let r = JsonValue::Object(members);
    proof {
        assert(r@->Obj_0 =~= members_of(r->Object_0@));
    }
    r
}

/// Structural copy of a JSON document.
fn clone_value(v: &JsonValue) -> (r: JsonValue)
    ensures
        r@ == v@,
    decreases v,
{
    match v {
        JsonValue::Null => JsonValue::Null,
        JsonValue::Bool(b) => JsonValue::Bool(*b),
        JsonValue::Int(n) => JsonValue::Int(*n),
        JsonValue::Str(s) => JsonValue::Str(s.clone()),
        JsonValue::Array(a) => {
            let ghost es = v@->Arr_0;
            proof {
                assert(v@ == JsonVal::Arr(es));
                assert(es.len() == a@.len());
                assert(forall|k: int| 0 <= k < a@.len() ==> es[k] == a@[k]@);
            }
            let n = a.len();
            let mut out: Vec<JsonValue> = Vec::new();
            let mut i: usize = 0;
            while i < n
                invariant
                    i <= n,
                    n == a@.len(),
                    *v == JsonValue::Array(*a),
                    v@ == JsonVal::Arr(es),
                    es.len() == n,
                    forall|k: int| 0 <= k < n ==> es[k] == a@[k]@,
                    out@.len() == i,
                    forall|k: int| 0 <= k < i ==> (#[trigger] out@[k])@ == es[k],
                decreases n - i,
            {
                proof {
                    assert(decreases_to!(*v => v->Array_0));
                    assert(decreases_to!(v->Array_0 => v->Array_0[i as int]));
                }
                let c = clone_value(&a[i]);
                out.push(c);
                i = i + 1;
            }
            let r = JsonValue::Array(out);
            proof {
                assert(r@->Arr_0 =~= es);
            }
            r
        },
        JsonValue::Object(o) => {
            let ghost ms = v@->Obj_0;
            proof {
                assert(v@ == JsonVal::Obj(ms));
                assert(ms.len() == o@.len());
                assert(forall|k: int|
                    0 <= k < o@.len() ==> ms[k] == (JsonMemberVal {
                        key: o@[k].0@,
                        val: o@[k].1@,
                    }));
            }
            let n = o.len();
            let mut out: Vec<(String, JsonValue)> = Vec::new();
            let mut i: usize = 0;
            while i < n
                invariant
                    i <= n,
                    n == o@.len(),
                    *v == JsonValue::Object(*o),
                    v@ == JsonVal::Obj(ms),
                    ms.len() == n,
                    forall|k: int|
                        0 <= k < n ==> ms[k] == (JsonMemberVal {
                            key: o@[k].0@,
                            val: o@[k].1@,
                        }),
                    out@.len() == i,
                    forall|k: int|
                        0 <= k < i ==> (#[trigger] out@[k]).0@ == ms[k].key && out@[k].1@
                            == ms[k].val,
                decreases n - i,
            {
                proof {
                    assert(decreases_to!(*v => v->Object_0));
                    assert(decreases_to!(v->Object_0 => v->Object_0[i as int]));
                    assert(decreases_to!(v->Object_0[i as int] => v->Object_0[i as int].1));
                }
                let key = o[i].0.clone();
                let c = clone_value(&o[i].1);
                out.push((key, c));
                i = i + 1;
            }
            let r = JsonValue::Object(out);
            proof {
                assert(r@->Obj_0 =~= ms);
            }
            r
        },
    }
}

impl Clone for JsonValue {
    /// A clone of a document is the same document.
    fn clone(&self) -> (r: JsonValue)
        ensures
            r@ == self@,
    {
        clone_value(self)
    }
}

} // verus!






