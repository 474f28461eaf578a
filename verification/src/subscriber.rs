//! Pulled messages: the wire envelope model and the per-message
//! decode/transform/deserialize chain.
//!
//! A pull batch never fails as a whole because of one bad message: each
//! pulled message carries its own `Result`, and the surrounding list keeps
//! the order of the wire response.

use vstd::prelude::*;
use crate::attr::{AttrPair, Attributes};
use crate::b64::{b64_decode, base64_decode};
use crate::error::{Error, ErrorVal};
use crate::json::{JsonVal, JsonValue};
use crate::json_parse::{parse_bytes_spec, parse_json_bytes};
use crate::transform::{spec_apply, Transform, TransformVal};

verus! {

/// Wire message of a pulled envelope, in the mathematical model.
pub struct PubSubMessageVal {
    pub data: Option<Seq<char>>,
    pub attributes: Seq<AttrPair>,
    pub id: Seq<char>,
    pub publish_time: Seq<char>,
    pub ordering_key: Option<Seq<char>>,
}

/// Wire message of a pulled envelope: base64 payload (absent for
/// attribute-only messages), attributes, stable message id, RFC 3339 publish
/// time, and optional ordering key.
#[derive(Debug, PartialEq, Eq)]
pub struct PubSubMessage {
    pub data: Option<String>,
    pub attributes: Attributes,
    pub id: String,
    pub publish_time: String,
    pub ordering_key: Option<String>,
}

impl View for PubSubMessage {
    type V = PubSubMessageVal;

    open spec fn view(&self) -> PubSubMessageVal {
        PubSubMessageVal {
            data: match &self.data {
                Option::Some(d) => Option::Some(d@),
                Option::None => Option::None,
            },
            attributes: self.attributes@,
            id: self.id@,
            publish_time: self.publish_time@,
            ordering_key: match &self.ordering_key {
                Option::Some(k) => Option::Some(k@),
                Option::None => Option::None,
            },
        }
    }
}

/// Pulled envelope, in the mathematical model.
pub struct ReceivedMessageVal {
    pub ack_id: Seq<char>,
    pub message: PubSubMessageVal,
    pub delivery_attempt: u32,
}

/// Pulled envelope: opaque acknowledgement handle, wire message, and the
/// delivery attempt count (zero when the service omits it).
#[derive(Debug, PartialEq, Eq)]
pub struct ReceivedMessage {
    pub ack_id: String,
    pub message: PubSubMessage,
    pub delivery_attempt: u32,
}

impl View for ReceivedMessage {
    type V = ReceivedMessageVal;

    open spec fn view(&self) -> ReceivedMessageVal {
        ReceivedMessageVal {
            ack_id: self.ack_id@,
            message: self.message@,
            delivery_attempt: self.delivery_attempt,
        }
    }
}

/// A typed value decoded from a transformed JSON document.
///
/// The counterpart of the wire format's generic deserialization: library
/// users implement it for their message types. `spec_accepts` says which
/// documents the type takes; `spec_matches` relates a produced value to the
/// document it came from.
pub trait FromJsonValue: Sized {
    /// Whether this type accepts the document.
    spec fn spec_accepts(v: JsonVal) -> bool;

    /// How a produced value relates to the document it came from.
    spec fn spec_matches(&self, v: JsonVal) -> bool;

    /// Decode a value from a JSON document; the error is the reason the
    /// document was refused.
    fn try_from_json(v: JsonValue) -> (r: Result<Self, String>)
        ensures
            r is Ok <==> Self::spec_accepts(v@),
            r matches Result::Ok(m) ==> m.spec_matches(v@),
    ;
}

impl FromJsonValue for JsonValue {
    open spec fn spec_accepts(v: JsonVal) -> bool {
        true
    }

    open spec fn spec_matches(&self, v: JsonVal) -> bool {
        self@ == v
    }

    fn try_from_json(v: JsonValue) -> (r: Result<Self, String>) {
        Result::Ok(v)
    }
}

/// One pulled message as handed to the caller: the decoded value or the
/// per-message error, next to the envelope's metadata.
#[derive(Debug)]
pub struct PulledMessage<M> {
    pub ack_id: String,
    pub message: Result<M, Error>,
    pub attributes: Attributes,
    pub id: String,
    pub publish_time: String,
    pub ordering_key: Option<String>,
    pub delivery_attempt: u32,
}

/// The decode chain for one envelope, in the mathematical model: base64
/// decode, JSON parse, transform. The typed deserialization step follows in
/// `decoded_ok`.
pub open spec fn decode_chain(
    env: ReceivedMessageVal,
    t: TransformVal,
) -> Result<JsonVal, ErrorVal> {
    match env.message.data {
        Option::None => Result::Err(ErrorVal::NoData),
        Option::Some(d) => match b64_decode(d) {
            Option::None => Result::Err(ErrorVal::DecodeBase64),
            Option::Some(bytes) => match parse_bytes_spec(bytes) {
                Option::None => Result::Err(ErrorVal::MalformedJson),
                Option::Some(v) => match spec_apply(t, env.message.attributes, v) {
                    Result::Ok(v2) => Result::Ok(v2),
                    Result::Err(te) => Result::Err(ErrorVal::Transform(te)),
                },
            },
        },
    }
}

/// What the message slot of a pulled message must hold for its envelope.
pub open spec fn decoded_ok<M: FromJsonValue>(
    env: ReceivedMessageVal,
    t: TransformVal,
    r: Result<M, Error>,
) -> bool {
    match decode_chain(env, t) {
        Result::Ok(v) => match r {
            Result::Ok(m) => M::spec_accepts(v) && m.spec_matches(v),
            Result::Err(e) => !M::spec_accepts(v) && e@ is TypeMismatch,
        },
        Result::Err(ev) => r matches Result::Err(e) && e@ == ev,
    }
}

/// Metadata of a pulled message comes word for word from its envelope.
pub open spec fn metadata_kept<M>(env: ReceivedMessageVal, p: PulledMessage<M>) -> bool {
    &&& p.ack_id@ == env.ack_id
    &&& p.attributes@ == env.message.attributes
    &&& p.id@ == env.message.id
    &&& p.publish_time@ == env.message.publish_time
    &&& (match p.ordering_key {
        Option::Some(k) => env.message.ordering_key == Option::Some(k@),
        Option::None => env.message.ordering_key is None,
    })
    &&& p.delivery_attempt == env.delivery_attempt
}

/// Decodes one pulled envelope: base64, JSON, transform, typed value.
pub fn decode_message<M: FromJsonValue>(env: ReceivedMessage, transform: &Transform) -> (r:
    PulledMessage<M>)
    ensures
        metadata_kept(env@, r),
        decoded_ok(env@, transform@, r.message),
{
    let ghost env_v = env@;
    let ReceivedMessage { ack_id, message, delivery_attempt } = env;
    let PubSubMessage { data, attributes, id, publish_time, ordering_key } = message;
    let message_result: Result<M, Error> = match &data {
        Option::Some(d) => {
            match base64_decode(d.as_str()) {
                Option::Some(bytes) => {
                    match parse_json_bytes(bytes) {
                        Option::Some(v) => {
                            match crate::transform::apply_parts(transform, &attributes, v) {
                                Result::Ok(v2) => {
                                    match M::try_from_json(v2) {
                                        Result::Ok(m) => Result::Ok(m),
                                        Result::Err(reason) => Result::Err(
                                            Error::TypeMismatch { reason },
                                        ),
                                    }
                                },
                                Result::Err(te) => Result::Err(Error::Transform(te)),
                            }
                        },
                        Option::None => Result::Err(Error::MalformedJson),
                    }
                },
                Option::None => Result::Err(Error::DecodeBase64),
            }
        },
        Option::None => Result::Err(Error::NoData),
    };
    PulledMessage {
        ack_id,
        message: message_result,
        attributes,
        id,
        publish_time,
        ordering_key,
        delivery_attempt,
    }
}

/// Decodes a whole pull batch, one envelope at a time and in order. One
/// malformed message never poisons its siblings: every envelope yields its
/// own `PulledMessage`, and a failure stays in that message's result slot.
pub fn deserialize<M: FromJsonValue>(
    received_messages: Vec<ReceivedMessage>,
    transform: &Transform,
) -> (r: Vec<PulledMessage<M>>)
    ensures
        r@.len() == received_messages@.len(),
        forall|i: int|
            0 <= i < r@.len() ==> metadata_kept(received_messages@[i]@, #[trigger] r@[i])
                && decoded_ok(received_messages@[i]@, transform@, r@[i].message),
{
    let ghost envs = received_messages@;
    let mut out: Vec<PulledMessage<M>> = Vec::new();
    let mut rest = received_messages;
    let n = rest.len();
    let mut i: usize = 0;
    proof {
        assert(envs.skip(0) =~= envs);
    }
    while i < n
        invariant
            i <= n,
            n == envs.len(),
            rest@ == envs.skip(i as int),
            out@.len() == i,
            forall|k: int|
                0 <= k < i ==> metadata_kept(envs[k]@, #[trigger] out@[k]) && decoded_ok(
                    envs[k]@,
                    transform@,
                    out@[k].message,
                ),
        decreases n - i,
    {
        let ghost pre_rest = rest@;
        let env = rest.remove(0);
        proof {
            assert(pre_rest[0] == envs[i as int]);
            assert(env == envs[i as int]);
        }
        let p = decode_message::<M>(env, transform);
        out.push(p);
        i = i + 1;
        proof {
            assert(rest@ =~= envs.skip(i as int));
        }
    }
    out
}

/// The whole compute side of a pull call: parses the response body and
/// decodes every envelope of the batch through the transform. The call
/// fails only when the response itself is malformed; a bad message stays in
/// its own result slot.
pub fn handle_pull_response<M: FromJsonValue>(body: &str, transform: &Transform) -> (r: Result<
    Vec<PulledMessage<M>>,
    Error,
>)
    ensures
        r is Ok <==> crate::wire::pull_response_of(body@) is Ok,
        r matches Result::Ok(msgs) ==> {
            let es = crate::wire::pull_response_of(body@)->Ok_0;
            &&& msgs@.len() == es.len()
            &&& forall|i: int|
                0 <= i < es.len() ==> metadata_kept(es[i], #[trigger] msgs@[i]) && decoded_ok(
                    es[i],
                    transform@,
                    msgs@[i].message,
                )
        },
        r matches Result::Err(e) ==> e@ == crate::wire::pull_response_of(body@)->Err_0,
{
    match crate::wire::parse_pull_response(body) {
        Result::Ok(envelopes) => {
            let ghost envs = envelopes@;
            let msgs = deserialize::<M>(envelopes, transform);
            proof {
                let es = crate::wire::pull_response_of(body@)->Ok_0;
                assert(es =~= crate::wire::envelopes_view(envs));
                assert forall|i: int| 0 <= i < es.len() implies metadata_kept(
                    es[i],
                    #[trigger] msgs@[i],
                ) && decoded_ok(es[i], transform@, msgs@[i].message) by {
                    assert(es[i] == envs[i]@);
                }
            }
            Result::Ok(msgs)
        },
        Result::Err(e) => Result::Err(e),
    }
}

} // verus!

