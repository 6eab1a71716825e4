//! The exchange's error envelope: every response body is a JSON object with
//! an optional `status` field, and the value `"error"` marks a rejected
//! request whatever the HTTP status said.

use vstd::prelude::*;

verus! {

/// A failure surfaced to the caller.
#[derive(Debug)]
pub enum HuobiError {
    /// The server accepted the request but signalled a logical failure;
    /// carries the raw envelope text so the caller can branch on it.
    ApiError(String),
    /// The response body did not parse against the envelope shape; carries
    /// the raw body.
    DeserializeError(String),
    /// The transport failed before any envelope was read; carries the
    /// transport's description.
    TransportError(String),
}

/// What the envelope parse of a body yields, as `serde_json` computes it —
/// a function of the text alone.  `None`: the body is not a JSON object
/// with an optional string `status` field.  `Some(None)`: an object whose
/// `status` field is absent or JSON null.  `Some(Some(s))`: an object whose
/// `status` is the string `s`.
pub uninterp spec fn envelope_status_of(body: Seq<char>) -> Option<Option<Seq<char>>>;

/// How one parsed body stands to the envelope shape.
pub(crate) enum EnvelopeStatus {
    Invalid,
    Missing,
    Present(String),
}

/// Relies on `serde_json`: `from_str::<Value>` parses the body — a function
/// of the text alone — and the `Value::Object`/`Value::String`/`Value::Null`
/// variants with `Map::get` tell the envelope shape apart.  A null `status`
/// counts as absent, as an optional string field reads it.
#[verifier::external_body]
fn parse_envelope_status(body: &str) -> (r: EnvelopeStatus)
    ensures
        match r {
            EnvelopeStatus::Invalid => envelope_status_of(body@) is None,
            EnvelopeStatus::Missing => envelope_status_of(body@) == Some(None::<Seq<char>>),
            EnvelopeStatus::Present(s) => envelope_status_of(body@) == Some(Some(s@)),
        },
{
    match serde_json::from_str::<serde_json::Value>(body) {
        Ok(serde_json::Value::Object(map)) => match map.get("status") {
            None => EnvelopeStatus::Missing,
            Some(serde_json::Value::Null) => EnvelopeStatus::Missing,
            Some(serde_json::Value::String(s)) => EnvelopeStatus::Present(s.clone()),
            Some(_) => EnvelopeStatus::Invalid,
        },
        _ => EnvelopeStatus::Invalid,
    }
}

/// Check a response body against the error envelope: a body that does not
/// parse as an envelope fails as a deserialization error, a `status` of
/// `"error"` fails as an API error, and anything else — an absent `status`
/// included — passes the raw body through.
pub fn check_response(body: String) -> (r: Result<String, HuobiError>)
    ensures
        match envelope_status_of(body@) {
            None => r matches Err(HuobiError::DeserializeError(m)) && m@ == body@,
            Some(st) => {
                if st == Some("error"@) {
                    r matches Err(HuobiError::ApiError(m)) && m@ == body@
                } else {
                    r matches Ok(b) && b@ == body@
                }
            },
        },
{
    match parse_envelope_status(body.as_str()) {
        EnvelopeStatus::Invalid => Err(HuobiError::DeserializeError(body)),
        EnvelopeStatus::Missing => Ok(body),
        EnvelopeStatus::Present(s) => {
            if crate::params::str_compare(s.as_str(), "error") == 0 {
                Err(HuobiError::ApiError(body))
            } else {
                Ok(body)
            }
        },
    }
}

} // verus!
