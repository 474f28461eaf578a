//! The wire contract: request bodies, response parsing, URLs, and the
//! extraction of a service error message from a non-success response.
//!
//! Requests are JSON over HTTPS POST. The pull request is
//! `{"maxMessages": n}`; the acknowledge request is `{"ackIds": [...]}`;
//! the publish request is `{"messages": [...]}` where each message carries
//! `data`, `attributes` and `orderingKey`, omitting absent fields. The pull
//! response's `receivedMessages` may be absent, which means an empty batch.

use vstd::prelude::*;
use vstd::string::{StringExecFns, StrSliceExecFns};
use vstd::utf8::encode_utf8;
use crate::attr::{attrs_set, AttrPair, Attributes};
use crate::error::{Error, ErrorVal};
use crate::json::{
    array_of, get_member, members_of, obj_get, object_of, vals_of, JsonMemberVal, JsonVal,
    JsonValue,
};
use crate::json_parse::dec_val_of;
use crate::json_text::{ser, to_json_bytes, to_json_text};
use crate::publisher::{RawPublishedMessage, RawPublishedMessageVal};
use crate::text::chars_of;
use crate::subscriber::{PubSubMessage, PubSubMessageVal, ReceivedMessage, ReceivedMessageVal};

verus! {

/// The JSON document of a pull request.
pub open spec fn pull_request_val(max_messages: u32) -> JsonVal {
    JsonVal::Obj(
        seq![JsonMemberVal { key: "maxMessages"@, val: JsonVal::Int(max_messages as int) }],
    )
}

/// Body of a pull request.
pub fn pull_request_body(max_messages: u32) -> (r: Vec<u8>)
    ensures
        r@ == encode_utf8(ser(pull_request_val(max_messages))),
{
    let jv = JsonValue::Int(max_messages as i64);
    proof {
        assert(jv@ == JsonVal::Int(max_messages as int));
    }
    let mut members: Vec<(String, JsonValue)> = Vec::new();
    members.push((String::from_str("maxMessages"), jv));
    let doc = object_of(members);
    proof {
        assert(doc@->Obj_0 =~= pull_request_val(max_messages)->Obj_0);
    }
    to_json_bytes(&doc)
}

/// The JSON document of an acknowledge request.
pub open spec fn acknowledge_request_val(ack_ids: Seq<Seq<char>>) -> JsonVal {
    JsonVal::Obj(
        seq![
            JsonMemberVal {
                key: "ackIds"@,
                val: JsonVal::Arr(
                    Seq::new(
                        ack_ids.len(),
                        |i: int|
                            if 0 <= i < ack_ids.len() {
                                JsonVal::Str(ack_ids[i])
                            } else {
                                JsonVal::Null
                            },
                    ),
                ),
            },
        ],
    )
}

/// Views of a sequence of acknowledgement ids.
pub open spec fn ids_view(ids: Seq<String>) -> Seq<Seq<char>> {
    Seq::new(
        ids.len(),
        |i: int|
            if 0 <= i < ids.len() {
                ids[i]@
            } else {
                Seq::empty()
            },
    )
}

/// Body of an acknowledge request. The request carries every id: the
/// service acknowledges all of them or, on any invalid id, none.
pub fn acknowledge_request_body(ack_ids: &Vec<String>) -> (r: Vec<u8>)
    ensures
        r@ == encode_utf8(ser(acknowledge_request_val(ids_view(ack_ids@)))),
{
    let n = ack_ids.len();
    let mut items: Vec<JsonValue> = Vec::new();
    let mut i: usize = 0;
    while i < n
        invariant
            i <= n,
            n == ack_ids@.len(),
            items@.len() == i,
            forall|k: int|
                0 <= k < i ==> vals_of(items@)[k] == JsonVal::Str((#[trigger] ack_ids@[k])@),
        decreases n - i,
    {
        let jv = JsonValue::Str(ack_ids[i].clone());
        proof {
            assert(jv@ == JsonVal::Str(ack_ids@[i as int]@));
        }
        items.push(jv);
        i = i + 1;
    }
    let arr = array_of(items);
    let ghost arr_v = arr@;
    let ghost want = acknowledge_request_val(ids_view(ack_ids@));
    proof {
        assert(arr_v->Arr_0 =~= want->Obj_0[0].val->Arr_0);
        assert(arr_v == want->Obj_0[0].val);
    }
    let mut members: Vec<(String, JsonValue)> = Vec::new();
    members.push((String::from_str("ackIds"), arr));
    let doc = object_of(members);
    proof {
        assert(doc@->Obj_0 =~= want->Obj_0);
    }
    to_json_bytes(&doc)
}

/// The JSON document of one outbound wire message: `data`, `attributes` and
/// `orderingKey`, in that order, each present only when set.
pub open spec fn raw_message_val(m: RawPublishedMessageVal) -> JsonVal {
    let with_data: Seq<JsonMemberVal> = match m.data {
        Option::Some(d) => seq![JsonMemberVal { key: "data"@, val: JsonVal::Str(d) }],
        Option::None => Seq::empty(),
    };
    let with_attrs: Seq<JsonMemberVal> = match m.attributes {
        Option::Some(a) => with_data.push(
            JsonMemberVal { key: "attributes"@, val: JsonVal::Obj(attrs_members(a)) },
        ),
        Option::None => with_data,
    };
    let with_key: Seq<JsonMemberVal> = match m.ordering_key {
        Option::Some(k) => with_attrs.push(
            JsonMemberVal { key: "orderingKey"@, val: JsonVal::Str(k) },
        ),
        Option::None => with_attrs,
    };
    JsonVal::Obj(with_key)
}

/// Attribute bindings as JSON object members.
pub open spec fn attrs_members(attrs: Seq<AttrPair>) -> Seq<JsonMemberVal> {
    Seq::new(
        attrs.len(),
        |i: int|
            if 0 <= i < attrs.len() {
                JsonMemberVal { key: attrs[i].key, val: JsonVal::Str(attrs[i].val) }
            } else {
                JsonMemberVal { key: Seq::empty(), val: JsonVal::Null }
            },
    )
}

/// The JSON document of a publish request.
pub open spec fn publish_request_val(ms: Seq<RawPublishedMessageVal>) -> JsonVal {
    JsonVal::Obj(
        seq![
            JsonMemberVal {
                key: "messages"@,
                val: JsonVal::Arr(
                    Seq::new(
                        ms.len(),
                        |i: int|
                            if 0 <= i < ms.len() {
                                raw_message_val(ms[i])
                            } else {
                                JsonVal::Null
                            },
                    ),
                ),
            },
        ],
    )
}

/// Models of an executable wire-message list.
pub open spec fn raws_view(ms: Seq<RawPublishedMessage>) -> Seq<RawPublishedMessageVal> {
    Seq::new(
        ms.len(),
        |i: int|
            if 0 <= i < ms.len() {
                ms[i]@
            } else {
                (RawPublishedMessageVal {
                    data: Option::None,
                    attributes: Option::None,
                    ordering_key: Option::None,
                })
            },
    )
}

/// One outbound wire message as an executable JSON document.
fn raw_message_json(m: RawPublishedMessage) -> (r: JsonValue)
    ensures
        r@ == raw_message_val(m@),
{
    let ghost mv = m@;
    let RawPublishedMessage { data, attributes, ordering_key } = m;
    let mut members: Vec<(String, JsonValue)> = Vec::new();
    match data {
        Option::Some(d) => {
            let jv = JsonValue::Str(d);
            proof {
                assert(jv@ == JsonVal::Str(mv.data->Some_0));
            }
            members.push((String::from_str("data"), jv));
        },
        Option::None => {},
    }
    match attributes {
        Option::Some(a) => {
            let na = a.len();
            let mut amembers: Vec<(String, JsonValue)> = Vec::new();
            let mut i: usize = 0;
            while i < na
                invariant
                    i <= na,
                    na == a@.len(),
                    amembers@.len() == i,
                    forall|k: int|
                        0 <= k < i ==> members_of(amembers@)[k] == (JsonMemberVal {
                            key: (#[trigger] a@[k]).key,
                            val: JsonVal::Str(a@[k].val),
                        }),
                decreases na - i,
            {
                let jv = JsonValue::Str(a.val_at(i).clone());
                proof {
                    assert(jv@ == JsonVal::Str(a@[i as int].val));
                }
                let key = a.key_at(i).clone();
                amembers.push((key, jv));
                i = i + 1;
            }
            let obj = object_of(amembers);
            proof {
                assert(obj@->Obj_0 =~= attrs_members(a@));
                assert(obj@ == JsonVal::Obj(attrs_members(mv.attributes->Some_0)));
            }
            members.push((String::from_str("attributes"), obj));
        },
        Option::None => {},
    }
    match ordering_key {
        Option::Some(k) => {
            let jv = JsonValue::Str(k);
            proof {
                assert(jv@ == JsonVal::Str(mv.ordering_key->Some_0));
            }
            members.push((String::from_str("orderingKey"), jv));
        },
        Option::None => {},
    }
    let r = object_of(members);
    proof {
        assert(r@->Obj_0 =~= raw_message_val(mv)->Obj_0);
    }
    r
}

/// Body of a publish request for a batch of wire messages.
pub fn publish_request_body(messages: Vec<RawPublishedMessage>) -> (r: Vec<u8>)
    ensures
        r@ == encode_utf8(ser(publish_request_val(raws_view(messages@)))),
{
    let ghost msv = raws_view(messages@);
    let mut items: Vec<JsonValue> = Vec::new();
    let mut rest = messages;
    let n = rest.len();
    let mut i: usize = 0;
    let ghost msgs0 = rest@;
    proof {
        assert(msgs0.skip(0) =~= msgs0);
    }
    while i < n
        invariant
            i <= n,
            n == msgs0.len(),
            n == msv.len(),
            rest@ == msgs0.skip(i as int),
            items@.len() == i,
            forall|k: int| 0 <= k < n ==> msv[k] == (#[trigger] msgs0[k])@,
            forall|k: int| 0 <= k < i ==> vals_of(items@)[k] == raw_message_val(#[trigger] msv[k]),
        decreases n - i,
    {
        let ghost pre_rest = rest@;
        let m = rest.remove(0);
        proof {
            assert(pre_rest[0] == msgs0[i as int]);
        }
        let j = raw_message_json(m);
        items.push(j);
        i = i + 1;
        proof {
            assert(rest@ =~= msgs0.skip(i as int));
        }
    }
    let arr = array_of(items);
    let ghost arr_v = arr@;
    let ghost want = publish_request_val(msv);
    proof {
        assert(arr_v->Arr_0 =~= want->Obj_0[0].val->Arr_0);
        assert(arr_v == want->Obj_0[0].val);
    }
    let mut members: Vec<(String, JsonValue)> = Vec::new();
    members.push((String::from_str("messages"), arr));
    let doc = object_of(members);
    proof {
        assert(doc@->Obj_0 =~= want->Obj_0);
    }
    to_json_bytes(&doc)
}

/// Project base URL: `{base}/v1/projects/{project}`.
pub fn project_url(base_url: &str, project_id: &str) -> (r: String)
    ensures
        r@ == base_url@ + "/v1/projects/"@ + project_id@,
{
    let mut out = String::from_str(base_url);
    out.append("/v1/projects/");
    out.append(project_id);
    out
}

/// Publish URL of a topic: `{project_url}/topics/{topic}:publish`.
pub fn topic_url(project_url: &str, topic_id: &str) -> (r: String)
    ensures
        r@ == project_url@ + "/topics/"@ + topic_id@ + ":publish"@,
{
    let mut out = String::from_str(project_url);
    out.append("/topics/");
    out.append(topic_id);
    out.append(":publish");
    out
}

/// Action URL of a subscription:
/// `{project_url}/subscriptions/{subscription}:{action}`.
pub fn subscription_url(project_url: &str, subscription_id: &str, action: &str) -> (r: String)
    ensures
        r@ == project_url@ + "/subscriptions/"@ + subscription_id@ + ":"@ + action@,
{
    let mut out = String::from_str(project_url);
    out.append("/subscriptions/");
    out.append(subscription_id);
    out.append(":");
    out.append(action);
    out
}

/// The member of an object under `key`, or null when the value is not an
/// object or the key is absent — the usual indexing convention on JSON
/// trees.
pub open spec fn member_or_null(v: JsonVal, key: Seq<char>) -> JsonVal {
    match v {
        JsonVal::Obj(ms) => match obj_get(ms, key) {
            Option::Some(x) => x,
            Option::None => JsonVal::Null,
        },
        _ => JsonVal::Null,
    }
}

/// The error carried by a non-success response, in the mathematical model:
/// the JSON text of the body's `error.message` member when the body parses,
/// and the body itself otherwise.
pub open spec fn status_error_of(status: u16, body: Seq<char>) -> ErrorVal {
    match crate::json_parse::parse_doc(body) {
        Option::Some(v) => ErrorVal::UnexpectedHttpStatusCode(
            status,
            ser(member_or_null(member_or_null(v, "error"@), "message"@)),
        ),
        Option::None => ErrorVal::UnexpectedHttpStatusCode(status, body),
    }
}

impl Error {
    /// Builds the error for a non-success response, extracting the service's
    /// message from the error body when it is there.
    pub fn unexpected_http_status_code(status: u16, body: &str) -> (r: Error)
        ensures
            r@ == status_error_of(status, body@),
    {
        match crate::json_parse::parse_json_text(body) {
            Option::Some(doc) => {
                let ghost doc_v = doc@;
                let null_value = JsonValue::Null;
                let error_member: &JsonValue = match &doc {
                    JsonValue::Object(o) => {
                        proof {
                            assert(doc@->Obj_0 =~= members_of(o@));
                        }
                        match get_member(o, "error") {
                            Option::Some(v) => v,
                            Option::None => &null_value,
                        }
                    },
                    _ => &null_value,
                };
                proof {
                    assert(error_member@ == member_or_null(doc_v, "error"@));
                }
                let message_member: &JsonValue = match error_member {
                    JsonValue::Object(o) => {
                        proof {
                            assert(error_member@->Obj_0 =~= members_of(o@));
                        }
                        match get_member(o, "message") {
                            Option::Some(v) => v,
                            Option::None => &null_value,
                        }
                    },
                    _ => &null_value,
                };
                proof {
                    assert(message_member@ == member_or_null(
                        member_or_null(doc_v, "error"@),
                        "message"@,
                    ));
                }
                let text = to_json_text(message_member);
                Error::UnexpectedHttpStatusCode(status, text)
            },
            Option::None => Error::UnexpectedHttpStatusCode(status, String::from_str(body)),
        }
    }
}

/// The string contents of a value list, when every element is a string.
pub open spec fn str_items(items: Seq<JsonVal>) -> Option<Seq<Seq<char>>>
    decreases items.len(),
{
    if items.len() == 0 {
        Option::Some(Seq::empty())
    } else {
        match str_items(items.drop_last()) {
            Option::Some(pre) => match items.last() {
                JsonVal::Str(s) => Option::Some(pre.push(s)),
                _ => Option::None,
            },
            Option::None => Option::None,
        }
    }
}

/// What a publish response means: the list of service-assigned message ids,
/// one per published message and in order, or the shape error.
pub open spec fn publish_response_of(body: Seq<char>) -> Result<Seq<Seq<char>>, ErrorVal> {
    match crate::json_parse::parse_doc(body) {
        Option::None => Result::Err(
            ErrorVal::UnexpectedHttpResponse("response body is not a JSON document"@),
        ),
        Option::Some(v) => match member_or_null(v, "messageIds"@) {
            JsonVal::Arr(items) => match str_items(items) {
                Option::Some(ids) => Result::Ok(ids),
                Option::None => Result::Err(
                    ErrorVal::UnexpectedHttpResponse("unexpected publish response shape"@),
                ),
            },
            _ => Result::Err(
                ErrorVal::UnexpectedHttpResponse("unexpected publish response shape"@),
            ),
        },
    }
}

/// Parses a publish response body into the assigned message ids.
pub fn parse_publish_response(body: &str) -> (r: Result<Vec<String>, Error>)
    ensures
        match (publish_response_of(body@), r) {
            (Result::Ok(ids), Result::Ok(v)) => ids_view(v@) == ids,
            (Result::Err(me), Result::Err(e)) => e@ == me,
            _ => false,
        },
{
    match crate::json_parse::parse_json_text(body) {
        Option::None => Result::Err(
            Error::UnexpectedHttpResponse {
                reason: String::from_str("response body is not a JSON document"),
            },
        ),
        Option::Some(doc) => {
            let ghost doc_v = doc@;
            match &doc {
                JsonValue::Object(o) => {
                    proof {
                        assert(doc@->Obj_0 =~= members_of(o@));
                    }
                    match get_member(o, "messageIds") {
                        Option::Some(m) => match m {
                            JsonValue::Array(items) => {
                                let ghost items_v = m@->Arr_0;
                                proof {
                                    assert(items_v =~= vals_of(items@));
                                }
                                let n = items.len();
                                let mut out: Vec<String> = Vec::new();
                                let mut i: usize = 0;
                                proof {
                                    assert(items_v.take(0) =~= Seq::<JsonVal>::empty());
                                }
                                while i < n
                                    invariant
                                        i <= n,
                                        n == items@.len(),
                                        crate::json_parse::parse_doc(body@) == Option::Some(
                                            doc_v,
                                        ),
                                        member_or_null(doc_v, "messageIds"@) == JsonVal::Arr(
                                            items_v,
                                        ),
                                        items_v == vals_of(items@),
                                        items_v.len() == n,
                                        out@.len() == i,
                                        str_items(items_v.take(i as int)) == Option::Some(
                                            ids_view(out@),
                                        ),
                                    decreases n - i,
                                {
                                    let ghost pre = out@;
                                    match &items[i] {
                                        JsonValue::Str(s) => {
                                            out.push(s.clone());
                                            proof {
                                                assert(items_v[i as int] == JsonVal::Str(
                                                    s@,
                                                ));
                                                assert(items_v.take(i + 1).drop_last()
                                                    =~= items_v.take(i as int));
                                                assert(items_v.take(i + 1).last()
                                                    == items_v[i as int]);
                                                assert(ids_view(out@) =~= ids_view(pre).push(
                                                    s@,
                                                ));
                                            }
                                        },
                                        _ => {
                                            proof {
                                                assert(items_v[i as int] == items@[i as int]@);
                                                lemma_str_items_bad(items_v, i as int);
                                            }
                                            return Result::Err(
                                                Error::UnexpectedHttpResponse {
                                                    reason: String::from_str(
                                                        "unexpected publish response shape",
                                                    ),
                                                },
                                            );
                                        },
                                    }
                                    i = i + 1;
                                }
                                proof {
                                    assert(items_v.take(n as int) =~= items_v);
                                }
                                Result::Ok(out)
                            },
                            _ => Result::Err(
                                Error::UnexpectedHttpResponse {
                                    reason: String::from_str(
                                        "unexpected publish response shape",
                                    ),
                                },
                            ),
                        },
                        Option::None => Result::Err(
                            Error::UnexpectedHttpResponse {
                                reason: String::from_str("unexpected publish response shape"),
                            },
                        ),
                    }
                },
                _ => Result::Err(
                    Error::UnexpectedHttpResponse {
                        reason: String::from_str("unexpected publish response shape"),
                    },
                ),
            }
        },
    }
}

/// A non-string element anywhere spoils the whole string list.
proof fn lemma_str_items_bad(items: Seq<JsonVal>, i: int)
    requires
        0 <= i < items.len(),
        !(items[i] is Str),
    ensures
        str_items(items.take(items.len() as int)) is None,
        str_items(items) is None,
    decreases items.len(),
{
    assert(items.take(items.len() as int) =~= items);
    if i == items.len() - 1 {
    } else {
        assert(items.drop_last()[i] == items[i]);
        lemma_str_items_bad(items.drop_last(), i);
    }
}


/// Value of the two decimal digits at `i`, or -1.
pub open spec fn two_digits(s: Seq<char>, i: int) -> int
    recommends
        0 <= i,
        i + 2 <= s.len(),
{
    if dec_val_of(s[i]) < 0 || dec_val_of(s[i + 1]) < 0 {
        -1
    } else {
        dec_val_of(s[i]) * 10 + dec_val_of(s[i + 1])
    }
}

/// Value of the four decimal digits at `i`, or -1.
pub open spec fn four_digits(s: Seq<char>, i: int) -> int
    recommends
        0 <= i,
        i + 4 <= s.len(),
{
    if two_digits(s, i) < 0 || two_digits(s, i + 2) < 0 {
        -1
    } else {
        two_digits(s, i) * 100 + two_digits(s, i + 2)
    }
}

/// A leap year of the Gregorian calendar.
pub open spec fn is_leap_year(y: int) -> bool {
    y % 4 == 0 && (y % 100 != 0 || y % 400 == 0)
}

/// Days in a month of the Gregorian calendar.
pub open spec fn days_in_month(y: int, m: int) -> int
    recommends
        1 <= m <= 12,
{
    if m == 2 {
        if is_leap_year(y) {
            29
        } else {
            28
        }
    } else if m == 4 || m == 6 || m == 9 || m == 11 {
        30
    } else {
        31
    }
}

/// The fixed `YYYY-MM-DDThh:mm:ss` prefix of an RFC 3339 timestamp, with a
/// calendar-valid date. Leap seconds are not accepted, as the usual
/// timestamp parsers reject them.
pub open spec fn valid_date_time(s: Seq<char>) -> bool
    recommends
        s.len() >= 19,
{
    let y = four_digits(s, 0);
    let mo = two_digits(s, 5);
    let d = two_digits(s, 8);
    &&& y >= 0
    &&& s[4] == '-'
    &&& 1 <= mo <= 12
    &&& s[7] == '-'
    &&& 1 <= d <= days_in_month(y, mo)
    &&& (s[10] == 'T' || s[10] == 't')
    &&& 0 <= two_digits(s, 11) <= 23
    &&& s[13] == ':'
    &&& 0 <= two_digits(s, 14) <= 59
    &&& s[16] == ':'
    &&& 0 <= two_digits(s, 17) <= 59
}

/// The numeric offset or `Z` that ends an RFC 3339 timestamp at `i`.
pub open spec fn valid_offset(s: Seq<char>, i: int) -> bool
    recommends
        0 <= i <= s.len(),
{
    ||| (i + 1 == s.len() && (s[i] == 'Z' || s[i] == 'z'))
    ||| (i + 6 == s.len() && (s[i] == '+' || s[i] == '-') && 0 <= two_digits(s, i + 1) <= 23
        && s[i + 3] == ':' && 0 <= two_digits(s, i + 4) <= 59)
}

/// An RFC 3339 timestamp: date, `T`, time, an optional fraction of one to
/// nine digits, and an offset.
pub open spec fn is_rfc3339(s: Seq<char>) -> bool {
    &&& s.len() >= 20
    &&& valid_date_time(s)
    &&& if s[19] == '.' {
        let fe = crate::json_parse::digits_end(s, 20);
        1 <= fe - 20 <= 9 && valid_offset(s, fe)
    } else {
        valid_offset(s, 19)
    }
}

/// Value of a decimal digit character, or -1, executable form.
fn dec_val_x(c: char) -> (v: i8)
    ensures
        v as int == dec_val_of(c),
{
    let u = c as u32;
    if 48 <= u && u <= 57 {
        (u - 48) as i8
    } else {
        -1
    }
}

/// Value of the two decimal digits at `i`, or -1, executable form.
fn two_digits_x(cs: &Vec<char>, i: usize) -> (v: i8)
    requires
        i + 2 <= cs@.len(),
    ensures
        v as int == two_digits(cs@, i as int),
{
    proof {
        assert(cs.len() == cs@.len());
    }
    let d0 = dec_val_x(cs[i]);
    let d1 = dec_val_x(cs[i + 1]);
    if d0 < 0 || d1 < 0 {
        -1
    } else {
        d0 * 10 + d1
    }
}

/// Whether a string is an RFC 3339 timestamp, executable form.
fn is_rfc3339_x(s: &str) -> (r: bool)
    ensures
        r == is_rfc3339(s@),
{
    let cs = chars_of(s);
    let n = cs.len();
    if n < 20 {
        return false;
    }
    // Date and time.
    let y0 = two_digits_x(&cs, 0);
    let y1 = two_digits_x(&cs, 2);
    if y0 < 0 || y1 < 0 {
        proof {
            assert(four_digits(cs@, 0) < 0);
        }
        return false;
    }
    let y = (y0 as i32) * 100 + (y1 as i32);
    proof {
        assert(y as int == four_digits(cs@, 0));
    }
    if !(cs[4] == '-') {
        return false;
    }
    let mo = two_digits_x(&cs, 5);
    if !(1 <= mo && mo <= 12) {
        return false;
    }
    if !(cs[7] == '-') {
        return false;
    }
    let dim: i8 = if mo == 2 {
        if (y % 4 == 0 && (y % 100 != 0 || y % 400 == 0)) {
            29
        } else {
            28
        }
    } else if mo == 4 || mo == 6 || mo == 9 || mo == 11 {
        30
    } else {
        31
    };
    proof {
        assert(dim as int == days_in_month(y as int, mo as int));
    }
    let d = two_digits_x(&cs, 8);
    if !(1 <= d && d <= dim) {
        return false;
    }
    if !(cs[10] == 'T' || cs[10] == 't') {
        return false;
    }
    let hh = two_digits_x(&cs, 11);
    if !(0 <= hh && hh <= 23) {
        return false;
    }
    if !(cs[13] == ':') {
        return false;
    }
    let mi = two_digits_x(&cs, 14);
    if !(0 <= mi && mi <= 59) {
        return false;
    }
    if !(cs[16] == ':') {
        return false;
    }
    let ss = two_digits_x(&cs, 17);
    if !(0 <= ss && ss <= 59) {
        return false;
    }
    proof {
        assert(valid_date_time(cs@));
    }
    // Optional fraction.
    let off_start: usize;
    if cs[19] == '.' {
        let mut j: usize = 20;
        while j < n && 48 <= cs[j] as u32 && cs[j] as u32 <= 57
            invariant
                20 <= j <= n,
                n == cs@.len(),
                crate::json_parse::digits_end(cs@, 20) == crate::json_parse::digits_end(
                    cs@,
                    j as int,
                ),
            decreases n - j,
        {
            j = j + 1;
        }
        proof {
            assert(crate::json_parse::digits_end(cs@, j as int) == j);
        }
        if !(1 <= j - 20 && j - 20 <= 9) {
            return false;
        }
        off_start = j;
    } else {
        off_start = 19;
    }
    // Offset.
    let i = off_start;
    if i + 1 == n && (cs[i] == 'Z' || cs[i] == 'z') {
        return true;
    }
    if n - i == 6 && (cs[i] == '+' || cs[i] == '-') {
        let oh = two_digits_x(&cs, i + 1);
        let om = two_digits_x(&cs, i + 4);
        if 0 <= oh && oh <= 23 && cs[i + 3] == ':' && 0 <= om && om <= 59 {
            return true;
        }
    }
    proof {
        assert(!valid_offset(cs@, i as int));
    }
    false
}

/// A required string member.
pub open spec fn req_str(ms: Seq<JsonMemberVal>, key: Seq<char>) -> Option<Seq<char>> {
    match obj_get(ms, key) {
        Option::Some(JsonVal::Str(s)) => Option::Some(s),
        _ => Option::None,
    }
}

/// An optional string member: absent is tolerated, any other shape is not.
pub open spec fn opt_str(ms: Seq<JsonMemberVal>, key: Seq<char>) -> Option<Option<Seq<char>>> {
    match obj_get(ms, key) {
        Option::None => Option::Some(Option::None),
        Option::Some(JsonVal::Str(s)) => Option::Some(Option::Some(s)),
        Option::Some(_) => Option::None,
    }
}

/// Attribute bindings read back from a JSON object: later bindings of a key
/// replace earlier ones, as a map does.
pub open spec fn attrs_of_members_val(ms: Seq<JsonMemberVal>) -> Option<Seq<AttrPair>>
    decreases ms.len(),
{
    if ms.len() == 0 {
        Option::Some(Seq::empty())
    } else {
        match attrs_of_members_val(ms.drop_last()) {
            Option::Some(pre) => match ms.last().val {
                JsonVal::Str(s) => Option::Some(attrs_set(pre, ms.last().key, s)),
                _ => Option::None,
            },
            Option::None => Option::None,
        }
    }
}

/// The optional `attributes` member: absent means no attributes.
pub open spec fn opt_attrs(ms: Seq<JsonMemberVal>) -> Option<Seq<AttrPair>> {
    match obj_get(ms, "attributes"@) {
        Option::None => Option::Some(Seq::empty()),
        Option::Some(JsonVal::Obj(ams)) => attrs_of_members_val(ams),
        Option::Some(_) => Option::None,
    }
}

/// The optional `deliveryAttempt` member: absent means zero, as the emulator
/// omits the field.
pub open spec fn opt_delivery(ms: Seq<JsonMemberVal>) -> Option<u32> {
    match obj_get(ms, "deliveryAttempt"@) {
        Option::None => Option::Some(0u32),
        Option::Some(JsonVal::Int(n)) => if 0 <= n <= 0xFFFFFFFF {
            Option::Some(n as u32)
        } else {
            Option::None
        },
        Option::Some(_) => Option::None,
    }
}

/// The wire message held by the `message` member of a pulled envelope; its
/// publish time must be an RFC 3339 timestamp.
pub open spec fn message_of_val(v: JsonVal) -> Option<PubSubMessageVal> {
    match v {
        JsonVal::Obj(ms) => match (
            req_str(ms, "messageId"@),
            opt_str(ms, "data"@),
            opt_attrs(ms),
            req_str(ms, "publishTime"@),
            opt_str(ms, "orderingKey"@),
        ) {
            (
                Option::Some(id),
                Option::Some(data),
                Option::Some(attributes),
                Option::Some(publish_time),
                Option::Some(ordering_key),
            ) => if is_rfc3339(publish_time) {
                Option::Some(
                    PubSubMessageVal { data, attributes, id, publish_time, ordering_key },
                )
            } else {
                Option::None
            },
            _ => Option::None,
        },
        _ => Option::None,
    }
}

/// One pulled envelope read from a response element.
pub open spec fn envelope_of_val(v: JsonVal) -> Option<ReceivedMessageVal> {
    match v {
        JsonVal::Obj(ms) => match (req_str(ms, "ackId"@), obj_get(ms, "message"@), opt_delivery(
            ms,
        )) {
            (Option::Some(ack_id), Option::Some(mv), Option::Some(delivery_attempt)) => match
                message_of_val(mv) {
                Option::Some(message) => Option::Some(
                    ReceivedMessageVal { ack_id, message, delivery_attempt },
                ),
                Option::None => Option::None,
            },
            _ => Option::None,
        },
        _ => Option::None,
    }
}

/// Every element of a pull response batch, when each is a well-shaped
/// envelope.
pub open spec fn envelopes_of(items: Seq<JsonVal>) -> Option<Seq<ReceivedMessageVal>>
    decreases items.len(),
{
    if items.len() == 0 {
        Option::Some(Seq::empty())
    } else {
        match envelopes_of(items.drop_last()) {
            Option::Some(pre) => match envelope_of_val(items.last()) {
                Option::Some(e) => Option::Some(pre.push(e)),
                Option::None => Option::None,
            },
            Option::None => Option::None,
        }
    }
}

/// What a pull response means: the batch of envelopes, in response order; an
/// absent `receivedMessages` member means an empty batch.
pub open spec fn pull_response_of(body: Seq<char>) -> Result<Seq<ReceivedMessageVal>, ErrorVal> {
    match crate::json_parse::parse_doc(body) {
        Option::None => Result::Err(
            ErrorVal::UnexpectedHttpResponse("response body is not a JSON document"@),
        ),
        Option::Some(v) => match v {
            JsonVal::Obj(ms) => match obj_get(ms, "receivedMessages"@) {
                Option::None => Result::Ok(Seq::empty()),
                Option::Some(JsonVal::Arr(items)) => match envelopes_of(items) {
                    Option::Some(es) => Result::Ok(es),
                    Option::None => Result::Err(
                        ErrorVal::UnexpectedHttpResponse("unexpected pull response shape"@),
                    ),
                },
                Option::Some(_) => Result::Err(
                    ErrorVal::UnexpectedHttpResponse("unexpected pull response shape"@),
                ),
            },
            _ => Result::Err(
                ErrorVal::UnexpectedHttpResponse("unexpected pull response shape"@),
            ),
        },
    }
}

/// A required string member, executable form.
fn req_str_x(o: &Vec<(String, JsonValue)>, key: &str) -> (r: Option<String>)
    ensures
        match r {
            Option::Some(s) => req_str(members_of(o@), key@) == Option::Some(s@),
            Option::None => req_str(members_of(o@), key@) is None,
        },
{
    match get_member(o, key) {
        Option::Some(v) => match v {
            JsonValue::Str(s) => Option::Some(s.clone()),
            _ => Option::None,
        },
        Option::None => Option::None,
    }
}

/// An optional string member, executable form.
fn opt_str_x(o: &Vec<(String, JsonValue)>, key: &str) -> (r: Option<Option<String>>)
    ensures
        match r {
            Option::Some(Option::Some(s)) => opt_str(members_of(o@), key@) == Option::Some(
                Option::Some(s@),
            ),
            Option::Some(Option::None) => opt_str(members_of(o@), key@) == Option::Some(
                Option::None::<Seq<char>>,
            ),
            Option::None => opt_str(members_of(o@), key@) is None,
        },
{
    match get_member(o, key) {
        Option::Some(v) => match v {
            JsonValue::Str(s) => Option::Some(Option::Some(s.clone())),
            _ => Option::None,
        },
        Option::None => Option::Some(Option::None),
    }
}

/// The optional `attributes` member, executable form.
fn opt_attrs_x(o: &Vec<(String, JsonValue)>) -> (r: Option<Attributes>)
    ensures
        match r {
            Option::Some(a) => opt_attrs(members_of(o@)) == Option::Some(a@),
            Option::None => opt_attrs(members_of(o@)) is None,
        },
{
    match get_member(o, "attributes") {
        Option::None => Option::Some(Attributes::new()),
        Option::Some(v) => match v {
            JsonValue::Object(ams) => {
                let ghost ams_v = members_of(ams@);
                proof {
                    assert(v@->Obj_0 =~= ams_v);
                }
                let n = ams.len();
                let mut out = Attributes::new();
                let mut i: usize = 0;
                proof {
                    assert(ams_v.take(0) =~= Seq::<JsonMemberVal>::empty());
                }
                while i < n
                    invariant
                        i <= n,
                        n == ams@.len(),
                        obj_get(members_of(o@), "attributes"@) == Option::Some(
                            JsonVal::Obj(ams_v),
                        ),
                        ams_v == members_of(ams@),
                        ams_v.len() == n,
                        attrs_of_members_val(ams_v.take(i as int)) == Option::Some(out@),
                    decreases n - i,
                {
                    proof {
                        assert(ams_v.take(i + 1).drop_last() =~= ams_v.take(i as int));
                        assert(ams_v.take(i + 1).last() == ams_v[i as int]);
                    }
                    match &ams[i].1 {
                        JsonValue::Str(s) => {
                            out.insert(ams[i].0.clone(), s.clone());
                            proof {
                                assert(ams_v[i as int].key == ams@[i as int].0@);
                                assert(ams_v[i as int].val == JsonVal::Str(s@));
                            }
                        },
                        _ => {
                            proof {
                                assert(!(ams_v[i as int].val is Str));
                                lemma_attrs_members_bad(ams_v, i as int);
                            }
                            return Option::None;
                        },
                    }
                    i = i + 1;
                }
                proof {
                    assert(ams_v.take(n as int) =~= ams_v);
                }
                Option::Some(out)
            },
            _ => Option::None,
        },
    }
}

/// A non-string attribute value anywhere spoils the whole attribute object.
proof fn lemma_attrs_members_bad(ms: Seq<JsonMemberVal>, i: int)
    requires
        0 <= i < ms.len(),
        !(ms[i].val is Str),
    ensures
        attrs_of_members_val(ms) is None,
    decreases ms.len(),
{
    if i == ms.len() - 1 {
    } else {
        assert(ms.drop_last()[i] == ms[i]);
        lemma_attrs_members_bad(ms.drop_last(), i);
    }
}

/// The optional `deliveryAttempt` member, executable form.
fn opt_delivery_x(o: &Vec<(String, JsonValue)>) -> (r: Option<u32>)
    ensures
        match r {
            Option::Some(d) => opt_delivery(members_of(o@)) == Option::Some(d),
            Option::None => opt_delivery(members_of(o@)) is None,
        },
{
    match get_member(o, "deliveryAttempt") {
        Option::None => Option::Some(0),
        Option::Some(v) => match v {
            JsonValue::Int(n) => {
                let n = *n;
                if 0 <= n && n <= 0xFFFFFFFF {
                    Option::Some(n as u32)
                } else {
                    Option::None
                }
            },
            _ => Option::None,
        },
    }
}

/// The wire message under a `message` member, executable form.
fn message_from(v: &JsonValue) -> (r: Option<PubSubMessage>)
    ensures
        match r {
            Option::Some(m) => message_of_val(v@) == Option::Some(m@),
            Option::None => message_of_val(v@) is None,
        },
{
    match v {
        JsonValue::Object(o) => {
            proof {
                assert(v@->Obj_0 =~= members_of(o@));
            }
            let id = req_str_x(o, "messageId");
            let data = opt_str_x(o, "data");
            let attributes = opt_attrs_x(o);
            let publish_time = req_str_x(o, "publishTime");
            let ordering_key = opt_str_x(o, "orderingKey");
            match (id, data, attributes, publish_time, ordering_key) {
                (
                    Option::Some(id),
                    Option::Some(data),
                    Option::Some(attributes),
                    Option::Some(publish_time),
                    Option::Some(ordering_key),
                ) => {
                    if is_rfc3339_x(publish_time.as_str()) {
                        Option::Some(
                            PubSubMessage { data, attributes, id, publish_time, ordering_key },
                        )
                    } else {
                        Option::None
                    }
                },
                _ => Option::None,
            }
        },
        _ => Option::None,
    }
}

/// One pulled envelope from a response element, executable form.
fn envelope_from(v: &JsonValue) -> (r: Option<ReceivedMessage>)
    ensures
        match r {
            Option::Some(e) => envelope_of_val(v@) == Option::Some(e@),
            Option::None => envelope_of_val(v@) is None,
        },
{
    match v {
        JsonValue::Object(o) => {
            proof {
                assert(v@->Obj_0 =~= members_of(o@));
            }
            let ack_id = req_str_x(o, "ackId");
            let delivery_attempt = opt_delivery_x(o);
            match (ack_id, get_member(o, "message"), delivery_attempt) {
                (Option::Some(ack_id), Option::Some(mv), Option::Some(delivery_attempt)) => {
                    match message_from(mv) {
                        Option::Some(message) => Option::Some(
                            ReceivedMessage { ack_id, message, delivery_attempt },
                        ),
                        Option::None => Option::None,
                    }
                },
                _ => Option::None,
            }
        },
        _ => Option::None,
    }
}

/// Views of an envelope list.
pub open spec fn envelopes_view(es: Seq<ReceivedMessage>) -> Seq<ReceivedMessageVal> {
    Seq::new(
        es.len(),
        |i: int|
            if 0 <= i < es.len() {
                es[i]@
            } else {
                arbitrary()
            },
    )
}

/// A misshapen element anywhere spoils the whole batch.
proof fn lemma_envelopes_bad(items: Seq<JsonVal>, i: int)
    requires
        0 <= i < items.len(),
        envelope_of_val(items[i]) is None,
    ensures
        envelopes_of(items) is None,
    decreases items.len(),
{
    if i == items.len() - 1 {
    } else {
        assert(items.drop_last()[i] == items[i]);
        lemma_envelopes_bad(items.drop_last(), i);
    }
}

/// Parses a pull response body into its batch of envelopes.
pub fn parse_pull_response(body: &str) -> (r: Result<Vec<ReceivedMessage>, Error>)
    ensures
        match (pull_response_of(body@), r) {
            (Result::Ok(es), Result::Ok(v)) => envelopes_view(v@) == es,
            (Result::Err(me), Result::Err(e)) => e@ == me,
            _ => false,
        },
{
    match crate::json_parse::parse_json_text(body) {
        Option::None => Result::Err(
            Error::UnexpectedHttpResponse {
                reason: String::from_str("response body is not a JSON document"),
            },
        ),
        Option::Some(doc) => {
            let ghost doc_v = doc@;
            match &doc {
                JsonValue::Object(o) => {
                    proof {
                        assert(doc@->Obj_0 =~= members_of(o@));
                    }
                    match get_member(o, "receivedMessages") {
                        Option::None => {
                            let empty: Vec<ReceivedMessage> = Vec::new();
                            proof {
                                assert(envelopes_view(empty@) =~= Seq::<
                                    ReceivedMessageVal,
                                >::empty());
                            }
                            Result::Ok(empty)
                        },
                        Option::Some(m) => match m {
                            JsonValue::Array(items) => {
                                let ghost items_v = m@->Arr_0;
                                proof {
                                    assert(items_v =~= vals_of(items@));
                                }
                                let n = items.len();
                                let mut out: Vec<ReceivedMessage> = Vec::new();
                                let mut i: usize = 0;
                                proof {
                                    assert(items_v.take(0) =~= Seq::<JsonVal>::empty());
                                    assert(envelopes_view(out@) =~= Seq::<
                                        ReceivedMessageVal,
                                    >::empty());
                                }
                                while i < n
                                    invariant
                                        i <= n,
                                        n == items@.len(),
                                        crate::json_parse::parse_doc(body@) == Option::Some(
                                            doc_v,
                                        ),
                                        doc_v is Obj,
                                        obj_get(doc_v->Obj_0, "receivedMessages"@)
                                            == Option::Some(JsonVal::Arr(items_v)),
                                        items_v == vals_of(items@),
                                        items_v.len() == n,
                                        out@.len() == i,
                                        envelopes_of(items_v.take(i as int)) == Option::Some(
                                            envelopes_view(out@),
                                        ),
                                    decreases n - i,
                                {
                                    let ghost pre = out@;
                                    proof {
                                        assert(items_v.take(i + 1).drop_last() =~= items_v.take(
                                            i as int,
                                        ));
                                        assert(items_v.take(i + 1).last() == items_v[i as int]);
                                        assert(items_v[i as int] == items@[i as int]@);
                                    }
                                    match envelope_from(&items[i]) {
                                        Option::Some(e) => {
                                            let ghost ev = e@;
                                            out.push(e);
                                            proof {
                                                assert(envelopes_view(out@)
                                                    =~= envelopes_view(pre).push(ev));
                                            }
                                        },
                                        Option::None => {
                                            proof {
                                                lemma_envelopes_bad(items_v, i as int);
                                            }
                                            return Result::Err(
                                                Error::UnexpectedHttpResponse {
                                                    reason: String::from_str(
                                                        "unexpected pull response shape",
                                                    ),
                                                },
                                            );
                                        },
                                    }
                                    i = i + 1;
                                }
                                proof {
                                    assert(items_v.take(n as int) =~= items_v);
                                }
                                Result::Ok(out)
                            },
                            _ => Result::Err(
                                Error::UnexpectedHttpResponse {
                                    reason: String::from_str("unexpected pull response shape"),
                                },
                            ),
                        },
                    }
                },
                _ => Result::Err(
                    Error::UnexpectedHttpResponse {
                        reason: String::from_str("unexpected pull response shape"),
                    },
                ),
            }
        },
    }
}

} // verus!


