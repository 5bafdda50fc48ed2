use jsonrpc_greeting::envelope::GreetingParams;
use jsonrpc_greeting::envelope::GreetingRequest;
use jsonrpc_greeting::handler::handle_body;
use jsonrpc_greeting::handler::handle_request;

fn body(method: &str, name: &str) -> String {
    format!(
        "{{\"id\":\"00000000-0000-0000-0000-000000000000\",\"jsonrpc\":\"2.0\",\"method\":\"{}\",\"params\":{{\"name\":\"{}\"}}}}",
        method, name
    )
}

fn success_body(greeting: &str) -> String {
    format!(
        "{{\"id\":\"00000000-0000-0000-0000-000000000000\",\"jsonrpc\":\"2.0\",\"result\":{{\"greeting\":\"{}\"}}}}",
        greeting
    )
}

#[test]
fn test_happy_path() {
    let resp = handle_body(&body("greeting", "Oliver")).unwrap();
    assert_eq!(
        resp,
        r##"{"id":"00000000-0000-0000-0000-000000000000","jsonrpc":"2.0","result":{"greeting":"Hello, Oliver!"}}"##
    );
}

#[test]
fn main_test_non_existant_method() {
    let resp = handle_body(&body("wrong", "Oliver")).unwrap();
    assert_eq!(
        resp,
        r##"{"error":{"code":-32601,"message":"Method not found"},"id":"00000000-0000-0000-0000-000000000000","jsonrpc":"2.0"}"##
    );
}

#[test]
fn main_test_other_possibilities() {
    let key_values = vec![
        ("", "Hello, World!"),
        (" ", "Hello, World!"),
        ("Oliver ", "Hello, Oliver!"),
        (" Oliver", "Hello, Oliver!"),
        (" Oliver ", "Hello, Oliver!"),
    ];
    for key_value in key_values {
        let resp = handle_body(&body("greeting", key_value.0)).unwrap();
        assert_eq!(resp, success_body(key_value.1));
    }
}

#[test]
fn test_happy_paths() {
    let key_values = vec![("", "Hello, World!"), ("Oliver", "Hello, Oliver!")];
    for key_value in key_values {
        let resp = handle_body(&body("greeting", key_value.0)).unwrap();
        assert_eq!(resp, success_body(key_value.1));
    }
}

#[test]
fn json_rpc_test_other_possibilities() {
    let key_values = vec![
        (" ", "Hello, World!"),
        ("Oliver ", "Hello, Oliver!"),
        (" Oliver", "Hello, Oliver!"),
        (" Oliver ", "Hello, Oliver!"),
    ];
    for key_value in key_values {
        let resp = handle_body(&body("greeting", key_value.0)).unwrap();
        assert_eq!(resp, success_body(key_value.1));
    }
}

#[test]
fn json_rpc_test_non_existant_method() {
    let resp = handle_body(&body("wrong", "Oliver")).unwrap();
    assert_eq!(
        resp,
        r##"{"error":{"code":-32601,"message":"Method not found"},"id":"00000000-0000-0000-0000-000000000000","jsonrpc":"2.0"}"##
    );
}

#[test]
fn handle_request_echoes_id_and_jsonrpc() {
    let req = GreetingRequest {
        id: "abc-123".to_owned(),
        jsonrpc: "1.9".to_owned(),
        method: "greeting".to_owned(),
        params: GreetingParams {
            name: "Ada".to_owned(),
        },
    };
    let out = handle_request(&req);
    assert_eq!(
        out,
        r##"{"id":"abc-123","jsonrpc":"1.9","result":{"greeting":"Hello, Ada!"}}"##
    );
}

#[test]
fn empty_method_is_not_found() {
    let resp = handle_body(&body("", "Oliver")).unwrap();
    assert_eq!(
        resp,
        r##"{"error":{"code":-32601,"message":"Method not found"},"id":"00000000-0000-0000-0000-000000000000","jsonrpc":"2.0"}"##
    );
}

#[test]
fn method_match_is_case_sensitive_and_untrimmed() {
    for m in ["Greeting", "GREETING", " greeting", "greeting "] {
        let resp = handle_body(&body(m, "Oliver")).unwrap();
        assert!(resp.starts_with(r##"{"error":{"code":-32601"##), "{}", resp);
    }
}

#[test]
fn identical_bodies_get_identical_responses() {
    let b = body("greeting", "  Twin  ");
    let first = handle_body(&b).unwrap();
    let second = handle_body(&b).unwrap();
    assert_eq!(first, second);
}

#[test]
fn whitespace_and_member_order_of_request_do_not_matter() {
    let shuffled = r##" { "method" : "greeting" ,
        "params" : { "name" : "Oliver" } ,
        "jsonrpc" : "2.0" ,
        "id" : "00000000-0000-0000-0000-000000000000" } "##;
    let resp = handle_body(shuffled).unwrap();
    assert_eq!(resp, success_body("Hello, Oliver!"));
}

#[test]
fn unknown_members_are_ignored() {
    let b = r##"{"id":"i","jsonrpc":"2.0","method":"greeting","extra":[1,2,{"x":null}],"params":{"name":"Ada","more":true}}"##;
    let resp = handle_body(b).unwrap();
    assert_eq!(resp, r##"{"id":"i","jsonrpc":"2.0","result":{"greeting":"Hello, Ada!"}}"##);
}

#[test]
fn malformed_bodies_are_rejected() {
    let bad = [
        "",
        "not json",
        "{",
        "[1,2,3]",
        "\"just a string\"",
        r##"{"id":"i","jsonrpc":"2.0","method":"greeting"}"##,
        r##"{"id":5,"jsonrpc":"2.0","method":"greeting","params":{"name":"x"}}"##,
        r##"{"id":"i","jsonrpc":"2.0","method":"greeting","params":{"name":7}}"##,
        r##"{"id":"i","jsonrpc":"2.0","method":"greeting","params":"name"}"##,
        r##"{"id":"i","jsonrpc":"2.0","method":"greeting","params":{}}"##,
        r##"{"id":"i","id":"j","jsonrpc":"2.0","method":"greeting","params":{"name":"x"}}"##,
        r##"{"id":"i","jsonrpc":"2.0","method":"greeting","params":{"name":"x"}} trailing"##,
    ];
    for b in bad {
        assert!(handle_body(b).is_err(), "{}", b);
    }
}

#[test]
fn string_escapes_decode_and_reencode() {
    let b = r##"{"id":"a\"b\\c\/d\n\tAé","jsonrpc":"2.0","method":"greeting","params":{"name":"José"}}"##;
    let resp = handle_body(b).unwrap();
    assert_eq!(
        resp,
        "{\"id\":\"a\\\"b\\\\c/d\\n\\tA\u{e9}\",\"jsonrpc\":\"2.0\",\"result\":{\"greeting\":\"Hello, Jos\u{e9}!\"}}"
    );
}

#[test]
fn surrogate_pair_escape_decodes_to_one_character() {
    let b = r##"{"id":"\ud834\udd1e","jsonrpc":"2.0","method":"greeting","params":{"name":"x"}}"##;
    let resp = handle_body(b).unwrap();
    assert_eq!(
        resp,
        "{\"id\":\"\u{1d11e}\",\"jsonrpc\":\"2.0\",\"result\":{\"greeting\":\"Hello, x!\"}}"
    );
}

#[test]
fn lone_surrogate_escape_is_malformed() {
    let b = r##"{"id":"\ud834","jsonrpc":"2.0","method":"greeting","params":{"name":"x"}}"##;
    assert!(handle_body(b).is_err());
}

#[test]
fn control_characters_in_strings_are_escaped_on_output() {
    let b = "{\"id\":\"\\u0001\\u001f\\u0008\",\"jsonrpc\":\"2.0\",\"method\":\"greeting\",\"params\":{\"name\":\"x\"}}";
    let resp = handle_body(b).unwrap();
    assert_eq!(
        resp,
        "{\"id\":\"\\u0001\\u001f\\b\",\"jsonrpc\":\"2.0\",\"result\":{\"greeting\":\"Hello, x!\"}}"
    );
}

#[test]
fn unicode_whitespace_is_trimmed_from_names() {
    let b = "{\"id\":\"i\",\"jsonrpc\":\"2.0\",\"method\":\"greeting\",\"params\":{\"name\":\"\u{a0}\u{3000} Neva \u{2028}\"}}";
    let resp = handle_body(b).unwrap();
    assert_eq!(resp, r##"{"id":"i","jsonrpc":"2.0","result":{"greeting":"Hello, Neva!"}}"##);
}
