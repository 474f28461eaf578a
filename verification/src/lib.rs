//! A typed client library for a JSON-over-HTTPS publish/subscribe messaging
//! service: the message envelope pipeline (pull-time decode/transform chain,
//! publish-time serialize/encode chain) and the attribute-driven JSON
//! reshaping transforms, with the HTTP transport kept behind a thin shell.

use vstd::prelude::*;

pub mod attr;
pub mod b64;
pub mod error;
pub mod json;
pub mod json_parse;
pub mod json_props;
pub mod json_text;
pub mod laws;
pub mod publisher;
pub mod subscriber;
pub mod text;
pub mod transform;
pub mod wire;

verus! {

/// Default base URL of the production service endpoint.
pub fn default_base_url() -> (r: &'static str)
    ensures
        r@ == "https://pubsub.googleapis.com"@,
{
    "https://pubsub.googleapis.com"
}

} // verus!
