use jsonrpc_greeting::codec::dec_i32;
use jsonrpc_greeting::codec::escape;
use jsonrpc_greeting::greeting::greet;
use jsonrpc_greeting::greeting::trim;
use jsonrpc_greeting::json::JsonNode;
use jsonrpc_greeting::json::parse_text;

#[test]
fn trim_strips_both_ends() {
    assert_eq!(trim("  a b  "), "a b");
    assert_eq!(trim(""), "");
    assert_eq!(trim(" \t\r\n"), "");
    assert_eq!(trim("inner   kept"), "inner   kept");
    assert_eq!(trim("\u{a0}x\u{2009}"), "x");
}

#[test]
fn greet_formats_and_defaults() {
    assert_eq!(greet("Oliver"), "Hello, Oliver!");
    assert_eq!(greet(""), "Hello, World!");
    assert_eq!(greet("   "), "Hello, World!");
    assert_eq!(greet(" Oliver "), "Hello, Oliver!");
}

#[test]
fn escape_matches_canonical_json() {
    assert_eq!(escape("plain"), "plain");
    assert_eq!(escape("a\"b\\c/d"), "a\\\"b\\\\c/d");
    assert_eq!(escape("\u{8}\t\n\u{c}\r"), "\\b\\t\\n\\f\\r");
    assert_eq!(escape("\u{1}\u{1f}"), "\\u0001\\u001f");
    assert_eq!(escape("é𝄞"), "é𝄞");
}

#[test]
fn dec_i32_writes_decimal() {
    assert_eq!(dec_i32(0), "0");
    assert_eq!(dec_i32(-32601), "-32601");
    assert_eq!(dec_i32(2147483647), "2147483647");
    assert_eq!(dec_i32(-2147483648), "-2147483648");
}

#[test]
fn parse_text_reads_values() {
    assert!(matches!(parse_text("null"), Some(JsonNode::Null)));
    assert!(matches!(parse_text(" true "), Some(JsonNode::Bool(true))));
    assert!(matches!(parse_text("false"), Some(JsonNode::Bool(false))));
    match parse_text("\"a\\u0041b\"") {
        Some(JsonNode::Str(s)) => assert_eq!(s, "aAb"),
        other => panic!("unexpected {:?}", other.is_some()),
    }
    match parse_text("-12.5e3") {
        Some(JsonNode::Num(s)) => assert_eq!(s, "-12.5e3"),
        _ => panic!("number"),
    }
    match parse_text("[1, [], {\"k\": \"v\"}]") {
        Some(JsonNode::Arr(items)) => {
            assert_eq!(items.len(), 3);
            assert!(matches!(items[0], JsonNode::Num(_)));
            assert!(matches!(&items[1], JsonNode::Arr(inner) if inner.is_empty()));
        },
        _ => panic!("array"),
    }
}

#[test]
fn parse_text_rejects_bad_texts() {
    for t in [
        "",
        "  ",
        "{",
        "}",
        "[1,]",
        "{\"a\":}",
        "{\"a\" \"b\"}",
        "{'a': 1}",
        "01",
        "1.",
        "1e",
        "+1",
        "tru",
        "\"unterminated",
        "\"bad \\x escape\"",
        "\"raw \u{1} control\"",
        "nullnull",
    ] {
        assert!(parse_text(t).is_none(), "{}", t);
    }
}
