//! Seeded decoding of gateway event envelopes.
//!
//! The header triple — operation code, optional sequence, optional event
//! name — is extracted by a lighter pre-scan before the body is decoded;
//! here it seeds the event deserializer that picks the concrete event kind.
//! Two engines satisfy the same contract: a byte-preserving one that works
//! on an immutable view of the text, and an in-place one that takes the
//! buffer by value because its parse rewrites the bytes; exclusive
//! ownership is what makes that rewrite sound, and taking the `String`
//! enforces it by construction.

use vstd::prelude::*;
use serde::de::DeserializeSeed;
use twilight_model::gateway::event::{GatewayEvent, GatewayEventDeserializer};

verus! {

#[verifier::external_type_specification]
#[verifier::external_body]
pub struct ExGatewayEvent(GatewayEvent);

#[verifier::external_type_specification]
#[verifier::external_body]
pub struct ExJsonError(serde_json::Error);

#[verifier::external_type_specification]
#[verifier::external_body]
pub struct ExSimdJsonError(simd_json::Error);

/// Why parsing a gateway event failed.
#[derive(Debug)]
pub enum GatewayEventParsingError {
    /// The byte-preserving engine could not deserialize the payload; the
    /// cause is attached.
    Deserializing { source: serde_json::Error },
    /// The in-place engine could not deserialize the payload — its
    /// structural pass or its event parse; the cause is attached.
    DeserializingInPlace { source: simd_json::Error },
    /// The pre-scan collaborator could not establish a minimal envelope
    /// shape. This module never detects that itself; the variant is here so
    /// that callers can surface the pre-scan's verdict through the same
    /// taxonomy and tell a bad envelope from a bad body.
    PayloadInvalid,
}

/// The view of an optional event name.
pub open spec fn event_name_view(e: Option<&str>) -> Option<Seq<char>> {
    match e {
        Some(s) => Some(s@),
        None => None,
    }
}

/// Whether the byte-preserving engine accepts this header and body. The
/// engine is a deterministic function of the four values, so acceptance is
/// one too; which event comes back is opaque to this library.
pub uninterp spec fn serde_engine_accepts(
    op: u8,
    sequence: Option<u64>,
    event_name: Option<Seq<char>>,
    text: Seq<char>,
) -> bool;

/// Whether the in-place engine's structural pass accepts this body as JSON.
pub uninterp spec fn simd_envelope_accepts(text: Seq<char>) -> bool;

/// Whether the in-place engine, given a structurally valid body, accepts
/// this header and body as a gateway event.
pub uninterp spec fn simd_engine_accepts(
    op: u8,
    sequence: Option<u64>,
    event_name: Option<Seq<char>>,
    text: Seq<char>,
) -> bool;

/// Relies on `GatewayEventDeserializer::new` and its `DeserializeSeed`
/// impl, driven by `serde_json::Deserializer::from_str`: a seeded parse of
/// the body on an immutable view of the text.
#[verifier::external_body]
fn seeded_parse_str(
    op: u8,
    sequence: Option<u64>,
    event_type: Option<&str>,
    json: &str,
) -> (r: Result<GatewayEvent, serde_json::Error>)
    ensures
        r.is_ok() == serde_engine_accepts(op, sequence, event_name_view(event_type), json@),
{
    let gateway_deserializer = GatewayEventDeserializer::new(op, sequence, event_type);
    let mut json_deserializer = serde_json::Deserializer::from_str(json);
    gateway_deserializer.deserialize(&mut json_deserializer)
}

/// Relies on `simd_json::Deserializer::from_slice` for the structural pass
/// and on `GatewayEventDeserializer`'s `DeserializeSeed` impl for the event
/// itself. Takes the buffer by value: the parse rewrites it in place, so it
/// must not be read again. A failure of either stage comes back as that
/// stage's own error.
#[verifier::external_body]
fn seeded_parse_owned(
    op: u8,
    sequence: Option<u64>,
    event_type: Option<&str>,
    json: String,
) -> (r: Result<GatewayEvent, simd_json::Error>)
    ensures
        r.is_ok() == (simd_envelope_accepts(json@) && simd_engine_accepts(
            op,
            sequence,
            event_name_view(event_type),
            json@,
        )),
{
    let gateway_deserializer = GatewayEventDeserializer::new(op, sequence, event_type);
    let mut bytes = json.into_bytes();
    let mut json_deserializer = match simd_json::Deserializer::from_slice(&mut bytes) {
        Ok(d) => d,
        Err(source) => return Err(source),
    };
    gateway_deserializer.deserialize(&mut json_deserializer)
}

/// Relies on the `Display` impl of `serde_json::Error` to describe it.
#[verifier::external_body]
fn json_error_message(e: &serde_json::Error) -> (s: String) {
    format!("{}", e)
}

/// Relies on the `Display` impl of `simd_json::Error` to describe it.
#[verifier::external_body]
fn simd_error_message(e: &simd_json::Error) -> (s: String) {
    format!("{}", e)
}

impl GatewayEventParsingError {
    /// Describes the failure: the attached cause's own description, or the
    /// fixed sentence for an invalid envelope.
    pub fn message(&self) -> (s: String)
        ensures
            *self is PayloadInvalid ==> s@ == "payload is an invalid json structure"@,
    {
        match self {
            GatewayEventParsingError::Deserializing { source } => json_error_message(source),
            GatewayEventParsingError::DeserializingInPlace { source } => simd_error_message(
                source,
            ),
            GatewayEventParsingError::PayloadInvalid => String::from_str(
                "payload is an invalid json structure",
            ),
        }
    }
}

/// Parses a gateway event with the byte-preserving engine, seeded with the
/// pre-scanned header values. The text is only read, never changed, and
/// stays valid for the caller. Succeeds exactly when the engine accepts the
/// header and body; every failure carries the engine's cause.
pub fn parse_gateway_event(
    op: u8,
    sequence: Option<u64>,
    event_type: Option<&str>,
    json: &str,
) -> (r: Result<GatewayEvent, GatewayEventParsingError>)
    ensures
        r.is_ok() == serde_engine_accepts(op, sequence, event_name_view(event_type), json@),
        (match r {
            Ok(_) => true,
            Err(e) => e is Deserializing,
        }),
{
    match seeded_parse_str(op, sequence, event_type, json) {
        Ok(event) => Ok(event),
        Err(source) => Err(GatewayEventParsingError::Deserializing { source }),
    }
}

/// Parses a gateway event with the in-place engine, seeded with the
/// pre-scanned header values. Takes the buffer by value because the engine
/// rewrites it while parsing; moved ownership is what guarantees nobody
/// reads the clobbered bytes afterwards. Succeeds exactly when the engine's
/// structural pass and event parse both accept; every failure — a body
/// that is not valid JSON included — carries the engine's cause.
pub fn parse_gateway_event_in_place(
    op: u8,
    sequence: Option<u64>,
    event_type: Option<&str>,
    json: String,
) -> (r: Result<GatewayEvent, GatewayEventParsingError>)
    ensures
        r.is_ok() == (simd_envelope_accepts(json@) && simd_engine_accepts(
            op,
            sequence,
            event_name_view(event_type),
            json@,
        )),
        (match r {
            Ok(_) => true,
            Err(e) => e is DeserializingInPlace,
        }),
{
    match seeded_parse_owned(op, sequence, event_type, json) {
        Ok(event) => Ok(event),
        Err(source) => Err(GatewayEventParsingError::DeserializingInPlace { source }),
    }
}

} // verus!
