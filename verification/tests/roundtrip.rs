use jsonrpc_greeting::codec::decode_response;
use jsonrpc_greeting::codec::encode_response;
use jsonrpc_greeting::envelope::GreetingResponse;
use jsonrpc_greeting::envelope::GreetingResult;
use jsonrpc_greeting::envelope::MethodNotFoundError;
use jsonrpc_greeting::envelope::MethodNotFoundErrorResponse;
use jsonrpc_greeting::envelope::Response;

#[test]
fn success_envelope_round_trips() {
    let original = Response::Success(GreetingResponse {
        id: "a\"b\\c\n\u{1}\u{1d11e}".to_owned(),
        jsonrpc: "2.0".to_owned(),
        result: GreetingResult {
            greeting: "Hello, José!".to_owned(),
        },
    });
    let text = encode_response(&original);
    match decode_response(&text) {
        Some(Response::Success(s)) => {
            assert_eq!(s.id, "a\"b\\c\n\u{1}\u{1d11e}");
            assert_eq!(s.jsonrpc, "2.0");
            assert_eq!(s.result.greeting, "Hello, José!");
        },
        _ => panic!("expected a success envelope back"),
    }
}

#[test]
fn error_envelope_round_trips() {
    for code in [-32601, 0, 7, i32::MIN, i32::MAX] {
        let original = Response::Error(MethodNotFoundErrorResponse {
            error: MethodNotFoundError {
                code,
                message: "Method not found".to_owned(),
            },
            id: "00000000-0000-0000-0000-000000000000".to_owned(),
            jsonrpc: "2.0".to_owned(),
        });
        let text = encode_response(&original);
        match decode_response(&text) {
            Some(Response::Error(e)) => {
                assert_eq!(e.error.code, code);
                assert_eq!(e.error.message, "Method not found");
                assert_eq!(e.id, "00000000-0000-0000-0000-000000000000");
                assert_eq!(e.jsonrpc, "2.0");
            },
            _ => panic!("expected an error envelope back"),
        }
    }
}

#[test]
fn decode_response_reads_canonical_bodies() {
    let s = r##"{"id":"i","jsonrpc":"2.0","result":{"greeting":"Hello, World!"}}"##;
    match decode_response(s) {
        Some(Response::Success(ok)) => assert_eq!(ok.result.greeting, "Hello, World!"),
        _ => panic!("success body"),
    }
    let e = r##"{"error":{"code":-32601,"message":"Method not found"},"id":"i","jsonrpc":"2.0"}"##;
    match decode_response(e) {
        Some(Response::Error(err)) => {
            assert_eq!(err.error.code, -32601);
            assert_eq!(err.error.message, "Method not found");
        },
        _ => panic!("error body"),
    }
}

#[test]
fn decode_response_rejects_out_of_range_codes_and_mixed_shapes() {
    let too_big = r##"{"error":{"code":2147483648,"message":"m"},"id":"i","jsonrpc":"2.0"}"##;
    assert!(decode_response(too_big).is_none());
    let fractional = r##"{"error":{"code":-3.26e4,"message":"m"},"id":"i","jsonrpc":"2.0"}"##;
    assert!(decode_response(fractional).is_none());
    let neither = r##"{"id":"i","jsonrpc":"2.0"}"##;
    assert!(decode_response(neither).is_none());
}
