//! The JSON-RPC envelopes: the request, the two response shapes, and the
//! tagged response type that holds exactly one of them.

use vstd::prelude::*;

verus! {

/// Method-specific parameters of the greeting method.
pub struct GreetingParams {
    pub name: String,
}

/// Mathematical model of [`GreetingParams`].
pub struct GreetingParamsV {
    pub name: Seq<char>,
}

impl View for GreetingParams {
    type V = GreetingParamsV;

    open spec fn view(&self) -> GreetingParamsV {
        GreetingParamsV { name: self.name@ }
    }
}

/// A decoded request envelope. `id` and `jsonrpc` are opaque correlation
/// tokens, echoed back verbatim and never interpreted; `method` selects the
/// handler.
pub struct GreetingRequest {
    pub id: String,
    pub jsonrpc: String,
    pub method: String,
    pub params: GreetingParams,
}

/// Mathematical model of [`GreetingRequest`].
pub struct GreetingRequestV {
    pub id: Seq<char>,
    pub jsonrpc: Seq<char>,
    pub method: Seq<char>,
    pub params: GreetingParamsV,
}

impl View for GreetingRequest {
    type V = GreetingRequestV;

    open spec fn view(&self) -> GreetingRequestV {
        GreetingRequestV {
            id: self.id@,
            jsonrpc: self.jsonrpc@,
            method: self.method@,
            params: self.params@,
        }
    }
}

/// The result carried by a success envelope of the greeting method.
pub struct GreetingResult {
    pub greeting: String,
}

/// Mathematical model of [`GreetingResult`].
pub struct GreetingResultV {
    pub greeting: Seq<char>,
}

impl View for GreetingResult {
    type V = GreetingResultV;

    open spec fn view(&self) -> GreetingResultV {
        GreetingResultV { greeting: self.greeting@ }
    }
}

/// A success envelope: the request's `id` and `jsonrpc` echoed verbatim,
/// plus the method's result.
pub struct GreetingResponse {
    pub id: String,
    pub jsonrpc: String,
    pub result: GreetingResult,
}

/// Mathematical model of [`GreetingResponse`].
pub struct GreetingResponseV {
    pub id: Seq<char>,
    pub jsonrpc: Seq<char>,
    pub result: GreetingResultV,
}

impl View for GreetingResponse {
    type V = GreetingResponseV;

    open spec fn view(&self) -> GreetingResponseV {
        GreetingResponseV {
            id: self.id@,
            jsonrpc: self.jsonrpc@,
            result: self.result@,
        }
    }
}

/// The error object of an error envelope.
pub struct MethodNotFoundError {
    pub code: i32,
    pub message: String,
}

/// Mathematical model of [`MethodNotFoundError`].
pub struct MethodNotFoundErrorV {
    pub code: int,
    pub message: Seq<char>,
}

impl View for MethodNotFoundError {
    type V = MethodNotFoundErrorV;

    open spec fn view(&self) -> MethodNotFoundErrorV {
        MethodNotFoundErrorV { code: self.code as int, message: self.message@ }
    }
}

/// An error envelope: the error object plus the request's `id` and `jsonrpc`
/// echoed verbatim.
pub struct MethodNotFoundErrorResponse {
    pub error: MethodNotFoundError,
    pub id: String,
    pub jsonrpc: String,
}

/// Mathematical model of [`MethodNotFoundErrorResponse`].
pub struct MethodNotFoundErrorResponseV {
    pub error: MethodNotFoundErrorV,
    pub id: Seq<char>,
    pub jsonrpc: Seq<char>,
}

impl View for MethodNotFoundErrorResponse {
    type V = MethodNotFoundErrorResponseV;

    open spec fn view(&self) -> MethodNotFoundErrorResponseV {
        MethodNotFoundErrorResponseV {
            error: self.error@,
            id: self.id@,
            jsonrpc: self.jsonrpc@,
        }
    }
}

/// A response is exactly one of the two envelope shapes; the variant is the
/// discriminant that decides which fields are serialized.
pub enum Response {
    Success(GreetingResponse),
    Error(MethodNotFoundErrorResponse),
}

/// Mathematical model of [`Response`].
pub enum ResponseV {
    Success(GreetingResponseV),
    Error(MethodNotFoundErrorResponseV),
}

impl View for Response {
    type V = ResponseV;

    open spec fn view(&self) -> ResponseV {
        match self {
            Response::Success(r) => ResponseV::Success(r@),
            Response::Error(e) => ResponseV::Error(e@),
        }
    }
}

} // verus!
