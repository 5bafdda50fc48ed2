//! The whole dispatch path, body text in, body text out: decode the request
//! envelope, route it, encode the response envelope.

use vstd::prelude::*;
use crate::codec::DecodeError;
use crate::codec::decode_request;
use crate::codec::decode_request_spec;
use crate::codec::encode_response;
use crate::codec::encode_response_spec;
use crate::dispatch::dispatch;
use crate::dispatch::dispatch_spec;
use crate::envelope::GreetingRequest;
use crate::envelope::GreetingRequestV;

verus! {

/// The response text owed for a decoded request envelope.
pub open spec fn response_text_spec(r: GreetingRequestV) -> Seq<char> {
    encode_response_spec(dispatch_spec(r))
}

/// Handle one decoded request envelope: route it and serialize the
/// response. Total: every decoded envelope gets a response.
pub fn handle_request(req: &GreetingRequest) -> (out: String)
    ensures
        out@ == response_text_spec(req@),
{
    let resp = dispatch(req);
    encode_response(&resp)
}

/// The body-to-body transform of the service: `None` exactly on a body the
/// codec rejects, the response text otherwise.
pub open spec fn handle_body_spec(t: Seq<char>) -> Option<Seq<char>> {
    match decode_request_spec(t) {
        None => None,
        Some(r) => Some(response_text_spec(r)),
    }
}

/// Handle one request body: decode, route, encode. A malformed body is the
/// error; every decodable body gets a response text.
pub fn handle_body(body: &str) -> (out: Result<String, DecodeError>)
    ensures
        (out matches Ok(t) ==> handle_body_spec(body@) == Some(t@)),
        (out is Err) == (handle_body_spec(body@) is None),
{
    match decode_request(body) {
        Err(e) => Err(e),
        Ok(req) => Ok(handle_request(&req)),
    }
}

/// Every response the dispatcher produces survives the codec round trip:
/// decoding the response text yields exactly the dispatched envelope.
pub proof fn lemma_response_text_round_trip(r: GreetingRequestV)
    ensures
        crate::codec::decode_response_spec(response_text_spec(r)) == Some(dispatch_spec(r)),
{
    crate::codec::lemma_response_round_trip(dispatch_spec(r));
}

/// Idempotence: the response text is a function of the request body alone —
/// the service holds no state, and two identical bodies receive
/// byte-identical responses.
pub proof fn lemma_handler_idempotent(b1: Seq<char>, b2: Seq<char>)
    requires
        b1 == b2,
    ensures
        handle_body_spec(b1) == handle_body_spec(b2),
{
}

} // verus!
