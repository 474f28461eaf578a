//! Published messages: the serialize/encode chain and the publish batch.
//!
//! A publish batch is all-or-nothing at serialization time: when any message
//! of the batch cannot be serialized, the whole call fails before a request
//! body exists, and nothing is handed to the transport.

use vstd::prelude::*;
use vstd::string::{StringExecFns, StrSliceExecFns};
use vstd::utf8::encode_utf8;
use crate::attr::{AttrPair, Attributes};
use crate::b64::{b64_encode, base64_encode};
use crate::error::{Error, ErrorVal};
use crate::json::{JsonVal, JsonValue};
use crate::json_text::{ser, to_json_bytes};

verus! {

/// The wire text of one message payload: its JSON text, UTF-8 encoded, then
/// base64.
pub open spec fn encode_data(m: JsonVal) -> Seq<char> {
    b64_encode(encode_utf8(ser(m)))
}

/// Encodes one payload for the `data` field of a wire message.
pub fn encode_message_data(v: &JsonValue) -> (r: String)
    ensures
        r@ == encode_data(v@),
{
    let bytes = to_json_bytes(v);
    base64_encode(&bytes)
}

/// A value that can be published: the counterpart of the wire format's
/// generic serialization, implemented by library users for their message
/// types. Serialization may fail; a failing message aborts its whole batch.
pub trait PublisherMessage: Sized {
    /// The JSON document this value serializes to, if any.
    spec fn spec_to_json(&self) -> Option<JsonVal>;

    /// Serialize the value to a JSON document.
    fn to_json_value(self) -> (r: Result<JsonValue, String>)
        ensures
            r is Ok <==> self.spec_to_json() is Some,
            r matches Result::Ok(v) ==> Option::Some(v@) == self.spec_to_json(),
    ;
}

impl PublisherMessage for JsonValue {
    open spec fn spec_to_json(&self) -> Option<JsonVal> {
        Option::Some(self@)
    }

    fn to_json_value(self) -> (r: Result<JsonValue, String>) {
        Result::Ok(self)
    }
}

/// One application message on its way to a topic, with its optional
/// attributes.
pub struct MessageEnvelope<M: PublisherMessage> {
    pub message: M,
    pub attributes: Option<Attributes>,
}

impl<M: PublisherMessage> MessageEnvelope<M> {
    /// An envelope without attributes.
    pub fn new(message: M) -> (r: MessageEnvelope<M>)
        ensures
            r.message == message,
            r.attributes is None,
    {
        MessageEnvelope { message, attributes: Option::None }
    }

    /// An envelope with attributes.
    pub fn with_attributes(message: M, attributes: Attributes) -> (r: MessageEnvelope<M>)
        ensures
            r.message == message,
            r.attributes == Option::Some(attributes),
    {
        MessageEnvelope { message, attributes: Option::Some(attributes) }
    }
}

/// Wire shape of one outbound message, in the mathematical model.
pub struct RawPublishedMessageVal {
    pub data: Option<Seq<char>>,
    pub attributes: Option<Seq<AttrPair>>,
    pub ordering_key: Option<Seq<char>>,
}

/// Wire shape of one outbound message: base64 data, attributes and ordering
/// key, each omitted from the wire when absent.
#[derive(Debug, PartialEq, Eq)]
pub struct RawPublishedMessage {
    pub data: Option<String>,
    pub attributes: Option<Attributes>,
    pub ordering_key: Option<String>,
}

impl View for RawPublishedMessage {
    type V = RawPublishedMessageVal;

    open spec fn view(&self) -> RawPublishedMessageVal {
        RawPublishedMessageVal {
            data: match &self.data {
                Option::Some(d) => Option::Some(d@),
                Option::None => Option::None,
            },
            attributes: match &self.attributes {
                Option::Some(a) => Option::Some(a@),
                Option::None => Option::None,
            },
            ordering_key: match &self.ordering_key {
                Option::Some(k) => Option::Some(k@),
                Option::None => Option::None,
            },
        }
    }
}

impl RawPublishedMessage {
    /// A wire message holding the given base64 data.
    pub fn new(data: String) -> (r: RawPublishedMessage)
        ensures
            r@.data == Option::Some(data@),
            r@.attributes is None,
            r@.ordering_key is None,
    {
        RawPublishedMessage {
            data: Option::Some(data),
            attributes: Option::None,
            ordering_key: Option::None,
        }
    }

    /// The same message with its data replaced.
    pub fn with_data(self, data: String) -> (r: RawPublishedMessage)
        ensures
            r@.data == Option::Some(data@),
            r@.attributes == self@.attributes,
            r@.ordering_key == self@.ordering_key,
    {
        RawPublishedMessage { data: Option::Some(data), ..self }
    }

    /// The same message with its attributes replaced.
    pub fn with_attributes(self, attributes: Attributes) -> (r: RawPublishedMessage)
        ensures
            r@.data == self@.data,
            r@.attributes == Option::Some(attributes@),
            r@.ordering_key == self@.ordering_key,
    {
        RawPublishedMessage { attributes: Option::Some(attributes), ..self }
    }

    /// The same message with its ordering key replaced.
    pub fn with_ordering_key(self, ordering_key: String) -> (r: RawPublishedMessage)
        ensures
            r@.data == self@.data,
            r@.attributes == self@.attributes,
            r@.ordering_key == Option::Some(ordering_key@),
    {
        RawPublishedMessage { ordering_key: Option::Some(ordering_key), ..self }
    }
}

/// Whether every envelope of a batch serializes.
pub open spec fn all_serializable<M: PublisherMessage>(envelopes: Seq<MessageEnvelope<M>>) -> bool {
    forall|i: int| 0 <= i < envelopes.len() ==> (#[trigger] envelopes[i].message.spec_to_json())
        is Some
}

/// The wire message built from one envelope.
pub open spec fn raw_val_of_envelope<M: PublisherMessage>(
    env: MessageEnvelope<M>,
    ordering_key: Option<Seq<char>>,
) -> RawPublishedMessageVal {
    RawPublishedMessageVal {
        data: Option::Some(encode_data(env.message.spec_to_json()->Some_0)),
        attributes: match env.attributes {
            Option::Some(a) => Option::Some(a@),
            Option::None => Option::None,
        },
        ordering_key,
    }
}

/// The wire messages built from a whole batch.
pub open spec fn raw_vals_of_envelopes<M: PublisherMessage>(
    envelopes: Seq<MessageEnvelope<M>>,
    ordering_key: Option<Seq<char>>,
) -> Seq<RawPublishedMessageVal> {
    Seq::new(
        envelopes.len(),
        |i: int|
            if 0 <= i < envelopes.len() {
                raw_val_of_envelope(envelopes[i], ordering_key)
            } else {
                (RawPublishedMessageVal {
                    data: Option::None,
                    attributes: Option::None,
                    ordering_key: Option::None,
                })
            },
    )
}

/// The ordering key's model.
pub open spec fn okey_view(ordering_key: Option<&str>) -> Option<Seq<char>> {
    match ordering_key {
        Option::Some(k) => Option::Some(k@),
        Option::None => Option::None,
    }
}

/// Serializes a batch of envelopes to wire messages. Fail-fast: when any
/// envelope's message cannot be serialized, the whole batch fails with a
/// serialization error and no wire message is produced.
pub fn make_raw_messages<M: PublisherMessage>(
    envelopes: Vec<MessageEnvelope<M>>,
    ordering_key: Option<&str>,
) -> (r: Result<Vec<RawPublishedMessage>, Error>)
    ensures
        r is Ok <==> all_serializable(envelopes@),
        r matches Result::Ok(msgs) ==> msgs@.len() == envelopes@.len() && forall|i: int|
            0 <= i < envelopes@.len() ==> (#[trigger] msgs@[i])@ == raw_val_of_envelope(
                envelopes@[i],
                okey_view(ordering_key),
            ),
        r matches Result::Err(e) ==> e@ is Serialize,
{
    let ghost envs = envelopes@;
    let ghost okey: Option<Seq<char>> = okey_view(ordering_key);
    let mut out: Vec<RawPublishedMessage> = Vec::new();
    let mut rest = envelopes;
    let n = rest.len();
    let mut i: usize = 0;
    proof {
        assert(envs.skip(0) =~= envs);
    }
    while i < n
        invariant
            i <= n,
            n == envs.len(),
            envelopes@ == envs,
            rest@ == envs.skip(i as int),
            out@.len() == i,
            (match ordering_key {
                Option::Some(k) => okey == Option::Some(k@),
                Option::None => okey is None,
            }),
            forall|k: int| 0 <= k < i ==> (#[trigger] envs[k].message.spec_to_json()) is Some,
            forall|k: int|
                0 <= k < i ==> (#[trigger] out@[k])@ == raw_val_of_envelope(envs[k], okey),
        decreases n - i,
    {
        let ghost pre_rest = rest@;
        let env = rest.remove(0);
        proof {
            assert(pre_rest[0] == envs[i as int]);
            assert(env == envs[i as int]);
        }
        let MessageEnvelope { message, attributes } = env;
        match message.to_json_value() {
            Result::Ok(v) => {
                let data = encode_message_data(&v);
                let raw = RawPublishedMessage {
                    data: Option::Some(data),
                    attributes,
                    ordering_key: match ordering_key {
                        Option::Some(k) => Option::Some(String::from_str(k)),
                        Option::None => Option::None,
                    },
                };
                proof {
                    assert(raw@ == raw_val_of_envelope(envs[i as int], okey));
                }
                out.push(raw);
            },
            Result::Err(reason) => {
                proof {
                    assert(envs[i as int].message.spec_to_json() is None);
                    assert(!all_serializable(envs));
                }
                return Result::Err(Error::Serialize { reason });
            },
        }
        i = i + 1;
        proof {
            assert(rest@ =~= envs.skip(i as int));
        }
    }
    Result::Ok(out)
}

/// The whole compute side of a publish call: serializes the batch and
/// builds the request body. Fail-fast: when any message cannot be
/// serialized, no body exists and nothing can reach the transport.
pub fn publish_batch_body<M: PublisherMessage>(
    envelopes: Vec<MessageEnvelope<M>>,
    ordering_key: Option<&str>,
) -> (r: Result<Vec<u8>, Error>)
    ensures
        r is Ok <==> all_serializable(envelopes@),
        r matches Result::Ok(body) ==> body@ == encode_utf8(
            ser(
                crate::wire::publish_request_val(
                    raw_vals_of_envelopes(envelopes@, okey_view(ordering_key)),
                ),
            ),
        ),
        r matches Result::Err(e) ==> e@ is Serialize,
{
    let ghost envs = envelopes@;
    match make_raw_messages(envelopes, ordering_key) {
        Result::Ok(messages) => {
            let ghost msgs_v = messages@;
            let body = crate::wire::publish_request_body(messages);
            proof {
                assert(crate::wire::raws_view(msgs_v) =~= raw_vals_of_envelopes(
                    envs,
                    okey_view(ordering_key),
                ));
            }
            Result::Ok(body)
        },
        Result::Err(e) => Result::Err(e),
    }
}

} // verus!

