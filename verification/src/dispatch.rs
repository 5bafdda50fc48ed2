//! The dispatcher: route a decoded request envelope to exactly one outcome.

use vstd::prelude::*;
use vstd::string::StringExecFns;
use crate::envelope::GreetingRequest;
use crate::envelope::GreetingRequestV;
use crate::envelope::GreetingResponse;
use crate::envelope::GreetingResponseV;
use crate::envelope::GreetingResult;
use crate::envelope::GreetingResultV;
use crate::envelope::MethodNotFoundError;
use crate::envelope::MethodNotFoundErrorV;
use crate::envelope::MethodNotFoundErrorResponse;
use crate::envelope::MethodNotFoundErrorResponseV;
use crate::envelope::Response;
use crate::envelope::ResponseV;
use crate::greeting::greeting_of;
use crate::greeting::normalized_name;
use crate::greeting::trim_spec;

verus! {

/// Whether a method name is in the registry of known methods. Matching is
/// exact and case-sensitive; the registry holds the single method
/// `"greeting"` today, and new methods extend this predicate alone.
pub open spec fn is_registered(method: Seq<char>) -> bool {
    method == "greeting"@
}

/// The outcome the dispatcher owes for a decoded request envelope: a success
/// envelope from the matching handler, or the `-32601` error envelope, both
/// echoing the request's `id` and `jsonrpc` verbatim.
pub open spec fn dispatch_spec(r: GreetingRequestV) -> ResponseV {
    if is_registered(r.method) {
        ResponseV::Success(
            GreetingResponseV {
                id: r.id,
                jsonrpc: r.jsonrpc,
                result: GreetingResultV { greeting: greeting_of(r.params.name) },
            },
        )
    } else {
        ResponseV::Error(
            MethodNotFoundErrorResponseV {
                error: MethodNotFoundErrorV { code: -32601, message: "Method not found"@ },
                id: r.id,
                jsonrpc: r.jsonrpc,
            },
        )
    }
}

/// Route a decoded request envelope: total over every decoded envelope,
/// never failing; an unknown method is the normal error outcome.
pub fn dispatch(req: &GreetingRequest) -> (resp: Response)
    ensures
        resp@ == dispatch_spec(req@),
{
    let registered = String::from_str("greeting");
    if req.method == registered {
        let greeting = crate::greeting::greet(req.params.name.as_str());
        Response::Success(
            GreetingResponse {
                id: req.id.clone(),
                jsonrpc: req.jsonrpc.clone(),
                result: GreetingResult { greeting },
            },
        )
    } else {
        Response::Error(
            MethodNotFoundErrorResponse {
                error: MethodNotFoundError {
                    code: -32601,
                    message: String::from_str("Method not found"),
                },
                id: req.id.clone(),
                jsonrpc: req.jsonrpc.clone(),
            },
        )
    }
}

/// For every envelope whose method is `"greeting"`, whatever the name, the
/// response is a success envelope that echoes the request's `id` and
/// `jsonrpc` and greets the trimmed name, `"World"` standing in for a name
/// that is empty after trimming.
pub proof fn lemma_greeting_dispatch(r: GreetingRequestV)
    requires
        r.method == "greeting"@,
    ensures
        (dispatch_spec(r) matches ResponseV::Success(s)
            && s.id == r.id
            && s.jsonrpc == r.jsonrpc
            && s.result.greeting == "Hello, "@ + normalized_name(r.params.name) + "!"@),
        trim_spec(r.params.name).len() == 0 ==> normalized_name(r.params.name) == "World"@,
        trim_spec(r.params.name).len() > 0 ==> normalized_name(r.params.name) == trim_spec(
            r.params.name,
        ),
{
}

/// For every envelope whose method is anything other than `"greeting"`,
/// the empty string included, the response is an error envelope with code
/// `-32601` and message `"Method not found"` that echoes the request's `id`
/// and `jsonrpc`.
pub proof fn lemma_unknown_method_dispatch(r: GreetingRequestV)
    requires
        r.method != "greeting"@,
    ensures
        (dispatch_spec(r) matches ResponseV::Error(e)
            && e.id == r.id
            && e.jsonrpc == r.jsonrpc
            && e.error.code == -32601
            && e.error.message == "Method not found"@),
{
}

} // verus!
