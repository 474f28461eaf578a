//! The error taxonomy of the library.
//!
//! Batch-level failures (initialization, authentication, transport, bad
//! status, malformed top-level response) abort a whole call. Per-message
//! decode failures (`NoData`, `DecodeBase64`, `Deserialize`, `Transform`)
//! never abort a batch: they are contained in the one message's result slot.
//! `Serialize` aborts a publish call before any request is issued.

use vstd::prelude::*;
use crate::json::{JsonVal, JsonValue};

verus! {

/// Why a transform refused a message, in the mathematical model.
pub enum TransformErrorVal {
    MissingAttribute(Seq<char>),
    UnexpectedValue(JsonVal),
    UnknownVersion(Seq<char>),
}

/// Why a transform refused a message.
#[derive(Debug, PartialEq, Eq)]
pub enum TransformError {
    /// The attribute named by the transform is absent.
    MissingAttribute(String),
    /// The payload is not a JSON object.
    UnexpectedValue(JsonValue),
    /// The `version` attribute names an unknown scheme.
    UnknownVersion(String),
}

impl View for TransformError {
    type V = TransformErrorVal;

    open spec fn view(&self) -> TransformErrorVal {
        match self {
            TransformError::MissingAttribute(k) => TransformErrorVal::MissingAttribute(k@),
            TransformError::UnexpectedValue(v) => TransformErrorVal::UnexpectedValue(v@),
            TransformError::UnknownVersion(v) => TransformErrorVal::UnknownVersion(v@),
        }
    }
}

/// A failure of the library, in the mathematical model.
pub enum ErrorVal {
    Initialization(Seq<char>),
    TokenFetch(Seq<char>),
    HttpServiceCommunication(Seq<char>),
    UnexpectedHttpStatusCode(u16, Seq<char>),
    UnexpectedHttpResponse(Seq<char>),
    NoData,
    DecodeBase64,
    MalformedJson,
    TypeMismatch(Seq<char>),
    Serialize(Seq<char>),
    Transform(TransformErrorVal),
}

/// A failure of the library.
#[derive(Debug, PartialEq, Eq)]
pub enum Error {
    /// Credentials missing or malformed; fatal at client construction.
    Initialization { reason: String },
    /// The authentication provider rejected or failed.
    TokenFetch { reason: String },
    /// Network-level failure talking to the service.
    HttpServiceCommunication { reason: String },
    /// The service answered with a non-success status; carries the status
    /// code and the message extracted from the error body.
    UnexpectedHttpStatusCode(u16, String),
    /// The service answered with a body of an unexpected shape.
    UnexpectedHttpResponse { reason: String },
    /// A pulled message carries no data field.
    NoData,
    /// The data of a pulled message is not valid base64.
    DecodeBase64,
    /// Decoded data is not a JSON document this library reads.
    MalformedJson,
    /// The transformed document does not fit the target type.
    TypeMismatch { reason: String },
    /// A message to be published cannot be serialized.
    Serialize { reason: String },
    /// A transform refused the message.
    Transform(TransformError),
}

impl View for Error {
    type V = ErrorVal;

    open spec fn view(&self) -> ErrorVal {
        match self {
            Error::Initialization { reason } => ErrorVal::Initialization(reason@),
            Error::TokenFetch { reason } => ErrorVal::TokenFetch(reason@),
            Error::HttpServiceCommunication { reason } => ErrorVal::HttpServiceCommunication(
                reason@,
            ),
            Error::UnexpectedHttpStatusCode(code, msg) => ErrorVal::UnexpectedHttpStatusCode(
                *code,
                msg@,
            ),
            Error::UnexpectedHttpResponse { reason } => ErrorVal::UnexpectedHttpResponse(reason@),
            Error::NoData => ErrorVal::NoData,
            Error::DecodeBase64 => ErrorVal::DecodeBase64,
            Error::MalformedJson => ErrorVal::MalformedJson,
            Error::TypeMismatch { reason } => ErrorVal::TypeMismatch(reason@),
            Error::Serialize { reason } => ErrorVal::Serialize(reason@),
            Error::Transform(t) => ErrorVal::Transform(t@),
        }
    }
}

} // verus!
