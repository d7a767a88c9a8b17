//! Export requests in the JSON encoding of OTLP.
use crate::count::capped;
use crate::document::{json_document, parse_value, read_request, request_document};
use crate::error::PipeError;
use crate::otlp::normalize::{normalize, points_in, request_read};
use opentelemetry_proto::tonic::collector::metrics::v1::ExportMetricsServiceRequest;
use vstd::prelude::*;
use vstd::utf8::encode_utf8;

verus! {

/// What the decoding of some bytes comes to: the request that the JSON document
/// describes once it has been made to fit the decoder, and how many data points
/// the document has. None where the bytes are no JSON, or the document describes
/// no request.
pub open spec fn decoded(bytes: Seq<u8>) -> Option<(ExportMetricsServiceRequest, usize)> {
    match json_document(bytes) {
        Some(json) => match request_document(request_read(json)) {
            Some(request) => Some((request, capped(points_in(json)))),
            None => None,
        },
        None => None,
    }
}

/// Reads one line of OTLP/JSON, as the file exporter of the collector writes
/// them. See [`decode_json_bytes`].
pub fn decode_json(text: &str) -> (r: Result<(ExportMetricsServiceRequest, usize), PipeError>)
    ensures
        match r {
            Ok(found) => decoded(encode_utf8(text@)) == Some(found),
            Err(PipeError::Json(_)) => decoded(encode_utf8(text@)) is None,
            Err(_) => false,
        },
{
    decode_json_bytes(text.as_bytes())
}

/// Reads the body of an OTLP/HTTP request in JSON. Beside the request comes the
/// number of data points that the document has: where the request has fewer, the
/// decoder has dropped some.
pub fn decode_json_bytes(bytes: &[u8]) -> (r: Result<
    (ExportMetricsServiceRequest, usize),
    PipeError,
>)
    ensures
        match r {
            Ok(found) => decoded(bytes@) == Some(found),
            Err(PipeError::Json(_)) => decoded(bytes@) is None,
            Err(_) => false,
        },
{
    match parse_value(bytes) {
        Ok(mut value) => {
            let expected: usize = normalize(&mut value);
            match read_request(value) {
                Ok(request) => Ok((request, expected)),
                Err(err) => Err(PipeError::Json(err)),
            }
        },
        Err(err) => Err(PipeError::Json(err)),
    }
}

/// Bytes are decoded just where they are a JSON document that describes a request once
/// it fits the decoder, and the points that are expected are those of the document.
pub proof fn lemma_what_is_decoded(bytes: Seq<u8>)
    ensures
        json_document(bytes) is None ==> decoded(bytes) is None,
        json_document(bytes) is Some ==> {
            let json = json_document(bytes)->Some_0;
            &&& decoded(bytes) is Some <==> request_document(request_read(json)) is Some
            &&& decoded(bytes) is Some ==> Some(decoded(bytes)->Some_0.0) == request_document(
                request_read(json),
            )
            &&& decoded(bytes) is Some && points_in(json) <= usize::MAX ==> decoded(
                bytes,
            )->Some_0.1 == points_in(json)
        },
{
}

} // verus!
