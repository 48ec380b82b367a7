//! The per-connection read→decode→dispatch→encode cycle, as pure
//! functions over the bytes one connection carries.
//!
//! Each connection is fully described by its own input bytes and the
//! dispatch outcome for its decoded request: no state survives from one
//! connection to the next, so a malformed connection cannot disturb a
//! later one.

use vstd::prelude::*;
use vstd::slice::slice_to_vec;
use vstd::utf8::{valid_utf8, decode_utf8, encode_utf8};
use crate::frame::{ByteOrder, FramingError, spec_decode_frame, spec_encode_frame, max_frame_len};
use crate::frame::{decode_frame, encode_frame, lemma_frame_round_trip};
use crate::message::{encodable_chars, spec_encode_request, lemma_request_round_trip};
use crate::message::{DecodeError, OsuMessageData, OsuIpcMessage, OsuResponse, ReqFields};
use crate::message::{spec_parse_request, deserialize_message, encode_response,
    spec_encode_response, envelope_type, response_message_type};
use crate::dispatch::{CalculationError, build_response_message, spec_response_rating};

verus! {

/// Why a connection produced no decoded request. Either way the protocol
/// precondition for building any response was never met, so the
/// connection is closed without writing one.
#[derive(Clone, Copy, Debug, PartialEq, Eq, Structural)]
pub enum ConnectionError {
    Framing(FramingError),
    Decode(DecodeError),
}

/// What payload bytes decode to: the parsed request, or the content
/// failure.
pub open spec fn spec_decode_payload(bytes: Seq<u8>) -> Result<ReqFields, DecodeError> {
    if !valid_utf8(bytes) {
        Err(DecodeError::InvalidUtf8)
    } else {
        spec_parse_request(decode_utf8(bytes))
    }
}

/// What the bytes of one connection decode to: frame, then UTF-8, then
/// the envelope schema.
pub open spec fn spec_decode_request(avail: Seq<u8>, order: ByteOrder) -> Result<
    ReqFields,
    ConnectionError,
> {
    match spec_decode_frame(avail, order) {
        Err(f) => Err(ConnectionError::Framing(f)),
        Ok(p) => match spec_decode_payload(p) {
            Err(d) => Err(ConnectionError::Decode(d)),
            Ok(m) => Ok(m),
        },
    }
}

/// Relies on `String::from_utf8`: it returns `Ok` exactly when the bytes
/// are valid UTF-8, and then the string is their decoding.
#[verifier::external_body]
fn string_from_utf8(v: &Vec<u8>) -> (r: Option<String>)
    ensures
        r is Some <==> valid_utf8(v@),
        r is Some ==> r->0@ == decode_utf8(v@),
{
    match String::from_utf8(v.clone()) {
        Ok(s) => Some(s),
        Err(_) => None,
    }
}

/// Decodes one frame payload into a request.
pub fn decode_request_payload(payload: &Vec<u8>) -> (r: Result<OsuMessageData, DecodeError>)
    ensures
        match r {
            Ok(m) => spec_decode_payload(payload@) == Ok::<ReqFields, DecodeError>(m@),
            Err(e) => spec_decode_payload(payload@) == Err::<ReqFields, DecodeError>(e),
        },
{
    match string_from_utf8(payload) {
        None => Err(DecodeError::InvalidUtf8),
        Some(s) => deserialize_message(s.as_str()),
    }
}

/// Reads one request out of the bytes a connection delivered before its
/// stream closed: the frame, then the payload.
pub fn decode_request(avail: &Vec<u8>, order: ByteOrder) -> (r: Result<
    OsuMessageData,
    ConnectionError,
>)
    ensures
        match r {
            Ok(m) => spec_decode_request(avail@, order) == Ok::<ReqFields, ConnectionError>(m@),
            Err(e) => spec_decode_request(avail@, order) == Err::<ReqFields, ConnectionError>(e),
        },
{
    let payload = match decode_frame(avail, order) {
        Ok(p) => p,
        Err(f) => {
            return Err(ConnectionError::Framing(f));
        },
    };
    match decode_request_payload(&payload) {
        Ok(m) => Ok(m),
        Err(d) => Err(ConnectionError::Decode(d)),
    }
}

/// The frame bytes answering a response envelope.
pub open spec fn spec_response_frame(
    type_field: Seq<char>,
    message_type: Seq<char>,
    star_rating: Seq<char>,
    order: ByteOrder,
) -> Seq<u8> {
    spec_encode_frame(encode_utf8(spec_encode_response(type_field, message_type, star_rating)), order)
}

/// Encodes a response envelope into its frame: the UTF-8 payload behind
/// its length prefix. `None` only when the encoded payload cannot fit a
/// signed 32-bit length prefix.
pub fn encode_response_frame(msg: &OsuIpcMessage<OsuResponse>, order: ByteOrder) -> (r: Option<
    Vec<u8>,
>)
    ensures
        ({
            let payload = encode_utf8(
                spec_encode_response(
                    msg.type_field@,
                    msg.value.message_type@,
                    msg.value.message_data.star_rating@,
                ),
            );
            &&& r is Some <==> payload.len() <= max_frame_len()
            &&& r is Some ==> r->0@ == spec_encode_frame(payload, order)
        }),
{
    let text = encode_response(msg);
    let bytes = slice_to_vec(text.as_str().as_bytes());
    encode_frame(&bytes, order)
}

/// How one connection ended after the read phase.
pub enum ConnectionOutcome {
    /// No request could be decoded; the protocol precondition for
    /// building any response was never met.
    Undecodable(ConnectionError),
    /// A request was decoded and dispatched: the engine's star rating as
    /// a JSON number literal, or the typed calculation failure.
    Dispatched(Result<String, CalculationError>),
}

/// The response policy over every outcome of one connection: a transport
/// or content failure gets no bytes (the connection just closes); a
/// dispatched request always gets a well-formed response frame, with the
/// `0.0` sentinel rating when the calculation failed.
pub fn connection_response(outcome: &ConnectionOutcome, order: ByteOrder) -> (r: Option<Vec<u8>>)
    ensures
        match outcome {
            ConnectionOutcome::Undecodable(_) => r is None,
            ConnectionOutcome::Dispatched(o) => {
                let star = spec_response_rating(
                    match o {
                        Ok(s) => Ok(s@),
                        Err(e) => Err(*e),
                    },
                );
                let payload = encode_utf8(
                    spec_encode_response(envelope_type(), response_message_type(), star),
                );
                &&& r is Some <==> payload.len() <= max_frame_len()
                &&& r is Some ==> r->0@ == spec_encode_frame(payload, order)
            },
        },
{
    match outcome {
        ConnectionOutcome::Undecodable(_) => None,
        ConnectionOutcome::Dispatched(o) => {
            let msg = build_response_message(o);
            encode_response_frame(&msg, order)
        },
    }
}

/// Round trip over the wire: the frame carrying a canonically encoded
/// request decodes back to exactly the payload it was built from, for
/// every payload whose beatmap path the encoder can represent and whose
/// encoding fits a signed 32-bit length prefix.
pub proof fn lemma_request_wire_round_trip(f: ReqFields, order: ByteOrder)
    requires
        encodable_chars(f.file),
        encode_utf8(spec_encode_request(f)).len() <= max_frame_len(),
    ensures
        spec_decode_request(spec_encode_frame(encode_utf8(spec_encode_request(f)), order), order)
            == Ok::<ReqFields, ConnectionError>(f),
{
    let text = spec_encode_request(f);
    let payload = encode_utf8(text);
    vstd::utf8::encode_utf8_valid_utf8(text);
    vstd::utf8::encode_utf8_decode_utf8(text);
    assert(text.len() >= 1);
    assert(payload.len() > 0) by {
        if payload.len() == 0 {
            assert(decode_utf8(payload) =~= Seq::<char>::empty());
        }
    }
    lemma_frame_round_trip(payload, order);
    lemma_request_round_trip(f);
}

} // verus!
