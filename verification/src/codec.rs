//! The envelope codec: decode a request envelope out of JSON text, encode a
//! response envelope into canonical JSON text — no inter-token spacing,
//! fields in declaration order, strings escaped, the error code as a bare
//! decimal integer — and the proof that decoding undoes encoding.

use vstd::prelude::*;
use vstd::string::StrSliceExecFns;
use vstd::string::StringExecFns;
use crate::envelope::GreetingParams;
use crate::envelope::GreetingParamsV;
use crate::envelope::GreetingRequest;
use crate::envelope::GreetingRequestV;
use crate::envelope::GreetingResponseV;
use crate::envelope::MethodNotFoundErrorResponseV;
use crate::envelope::Response;
use crate::envelope::ResponseV;
use crate::envelope::GreetingResponse;
use crate::envelope::GreetingResult;
use crate::envelope::GreetingResultV;
use crate::envelope::MethodNotFoundError;
use crate::envelope::MethodNotFoundErrorV;
use crate::envelope::MethodNotFoundErrorResponse;
use crate::json::Json;
use crate::json::JsonNode;
use crate::json::cons_char;
use crate::json::count_key;
use crate::json::hex_val;
use crate::json::hex4;
use crate::json::parse_string_body;
use crate::json::get_unique_num;
use crate::json::get_unique_obj;
use crate::json::get_unique_str;
use crate::json::is_digit;
use crate::json::key_count_from;
use crate::json::advance;
use crate::json::parse_colon;
use crate::json::parse_members;
use crate::json::parse_obj_body;
use crate::json::parse_obj_tail;
use crate::json::parse_text;
use crate::json::parse_value;
use crate::json::ws_only;
use crate::json::parse_text_spec;
use crate::json::unique_num;
use crate::json::unique_obj;
use crate::json::unique_str;
use crate::strext::push_char;

verus! {

/// The one way decoding fails: the body is not a well-formed request
/// envelope.
#[derive(Clone, Copy, Debug, PartialEq, Eq, Structural)]
pub enum DecodeError {
    MalformedRequest,
}

/// The decimal digit character for `n`.
pub open spec fn digit_char(n: int) -> char {
    (48 + n) as char
}

/// The lower-case hexadecimal digit character for `n`.
pub open spec fn hex_digit_char(n: int) -> char {
    if n < 10 {
        (48 + n) as char
    } else {
        (87 + n) as char
    }
}

/// How one character appears inside a JSON string literal: quote and
/// backslash escaped, the five short control escapes, `\u00xx` for the other
/// control characters, every other character verbatim.
pub open spec fn esc_char(c: char) -> Seq<char> {
    let u = c as u32;
    if c == '"' {
        seq!['\\', '"']
    } else if c == '\\' {
        seq!['\\', '\\']
    } else if u == 0x08 {
        seq!['\\', 'b']
    } else if u == 0x09 {
        seq!['\\', 't']
    } else if u == 0x0A {
        seq!['\\', 'n']
    } else if u == 0x0C {
        seq!['\\', 'f']
    } else if u == 0x0D {
        seq!['\\', 'r']
    } else if u < 0x20 {
        seq!['\\', 'u', '0', '0', hex_digit_char(u as int / 16), hex_digit_char(u as int % 16)]
    } else {
        seq![c]
    }
}

/// The JSON string-literal body for the characters of `s` from `i` on.
pub open spec fn escape_from(s: Seq<char>, i: int) -> Seq<char>
    decreases s.len() - i,
{
    if i < 0 || i >= s.len() {
        Seq::empty()
    } else {
        esc_char(s[i]) + escape_from(s, i + 1)
    }
}

/// The JSON string-literal body for `s`.
pub open spec fn escape_spec(s: Seq<char>) -> Seq<char> {
    escape_from(s, 0)
}

/// The decimal digit string of `n`, most significant digit first.
pub open spec fn dec_digits(n: nat) -> Seq<char>
    decreases n,
{
    if n < 10 {
        seq![digit_char(n as int)]
    } else {
        dec_digits(n / 10) + seq![digit_char((n % 10) as int)]
    }
}

/// The decimal string of `v`, with a leading minus sign when negative.
pub open spec fn dec_int(v: int) -> Seq<char> {
    if v < 0 {
        seq!['-'] + dec_digits((-v) as nat)
    } else {
        dec_digits(v as nat)
    }
}

fn hex_digit(d: u32) -> (c: char)
    requires
        d < 16,
    ensures
        c == hex_digit_char(d as int),
{
    let b: u8 = if d < 10 {
        (d + 48) as u8
    } else {
        (d + 87) as u8
    };
    b as char
}

fn escape_tail(s: &str, n: usize, i: usize) -> (r: String)
    requires
        n == s@.len(),
        i <= n,
    ensures
        r@ == escape_from(s@, i as int),
    decreases n - i,
{
    if i >= n {
        String::new()
    } else {
        let c = s.get_char(i);
        let u = c as u32;
        let mut head = String::new();
        if u == 0x22 || u == 0x5C {
            push_char(&mut head, '\\');
            push_char(&mut head, c);
        } else if u == 0x08 {
            push_char(&mut head, '\\');
            push_char(&mut head, 'b');
        } else if u == 0x09 {
            push_char(&mut head, '\\');
            push_char(&mut head, 't');
        } else if u == 0x0A {
            push_char(&mut head, '\\');
            push_char(&mut head, 'n');
        } else if u == 0x0C {
            push_char(&mut head, '\\');
            push_char(&mut head, 'f');
        } else if u == 0x0D {
            push_char(&mut head, '\\');
            push_char(&mut head, 'r');
        } else if u < 0x20 {
            push_char(&mut head, '\\');
            push_char(&mut head, 'u');
            push_char(&mut head, '0');
            push_char(&mut head, '0');
            push_char(&mut head, hex_digit(u / 16));
            push_char(&mut head, hex_digit(u % 16));
        } else {
            push_char(&mut head, c);
        }
        proof {
            assert(head@ =~= esc_char(c));
        }
        let tail = escape_tail(s, n, i + 1);
        head.append(tail.as_str());
        proof {
            assert(head@ =~= esc_char(s@[i as int]) + escape_from(s@, i as int + 1));
        }
        head
    }
}

/// Escape the characters of `s` for use inside a JSON string literal.
pub fn escape(s: &str) -> (r: String)
    ensures
        r@ == escape_spec(s@),
{
    let n: usize = s.unicode_len();
    escape_tail(s, n, 0)
}

fn dec_u64(n: u64) -> (r: String)
    ensures
        r@ == dec_digits(n as nat),
    decreases n,
{
    if n < 10 {
        let mut s = String::new();
        push_char(&mut s, hex_digit(n as u32));
        s
    } else {
        let mut s = dec_u64(n / 10);
        push_char(&mut s, hex_digit((n % 10) as u32));
        s
    }
}

/// Render an `i32` in decimal, as JSON writes an integer.
pub fn dec_i32(n: i32) -> (r: String)
    ensures
        r@ == dec_int(n as int),
{
    if n < 0 {
        let wide: i64 = -(n as i64);
        let mut s = String::new();
        push_char(&mut s, '-');
        let digits = dec_u64(wide as u64);
        s.append(digits.as_str());
        proof {
            assert(s@ =~= dec_int(n as int));
        }
        s
    } else {
        dec_u64(n as u64)
    }
}

/// The canonical JSON text of a success envelope:
/// `{"id":...,"jsonrpc":...,"result":{"greeting":...}}`.
pub open spec fn encode_success_spec(r: GreetingResponseV) -> Seq<char> {
    "{\"id\":\""@ + escape_spec(r.id) + "\",\"jsonrpc\":\""@ + escape_spec(r.jsonrpc)
        + "\",\"result\":{\"greeting\":\""@ + escape_spec(r.result.greeting) + "\"}}"@
}

/// The canonical JSON text of an error envelope:
/// `{"error":{"code":...,"message":...},"id":...,"jsonrpc":...}`.
pub open spec fn encode_error_spec(e: MethodNotFoundErrorResponseV) -> Seq<char> {
    "{\"error\":{\"code\":"@ + dec_int(e.error.code) + ",\"message\":\""@ + escape_spec(
        e.error.message,
    ) + "\"},\"id\":\""@ + escape_spec(e.id) + "\",\"jsonrpc\":\""@ + escape_spec(e.jsonrpc)
        + "\"}"@
}

/// The canonical JSON text of a response, whichever shape it holds.
pub open spec fn encode_response_spec(r: ResponseV) -> Seq<char> {
    match r {
        ResponseV::Success(s) => encode_success_spec(s),
        ResponseV::Error(e) => encode_error_spec(e),
    }
}

/// Serialize a response envelope to its canonical JSON text.
pub fn encode_response(r: &Response) -> (out: String)
    ensures
        out@ == encode_response_spec(r@),
{
    match r {
        Response::Success(s) => {
            let mut out = String::from_str("{\"id\":\"");
            out.append(escape(s.id.as_str()).as_str());
            out.append("\",\"jsonrpc\":\"");
            out.append(escape(s.jsonrpc.as_str()).as_str());
            out.append("\",\"result\":{\"greeting\":\"");
            out.append(escape(s.result.greeting.as_str()).as_str());
            out.append("\"}}");
            proof {
                assert(out@ =~= encode_response_spec(r@));
            }
            out
        },
        Response::Error(e) => {
            let mut out = String::from_str("{\"error\":{\"code\":");
            out.append(dec_i32(e.error.code).as_str());
            out.append(",\"message\":\"");
            out.append(escape(e.error.message.as_str()).as_str());
            out.append("\"},\"id\":\"");
            out.append(escape(e.id.as_str()).as_str());
            out.append("\",\"jsonrpc\":\"");
            out.append(escape(e.jsonrpc.as_str()).as_str());
            out.append("\"}");
            proof {
                assert(out@ =~= encode_response_spec(r@));
            }
            out
        },
    }
}

/// The request envelope a JSON value holds: an object whose `id`, `jsonrpc`
/// and `method` are strings, each present exactly once, and whose `params`
/// is an object with a string `name`, present exactly once. Members beyond
/// these are allowed and ignored.
pub open spec fn extract_request(v: Json) -> Option<GreetingRequestV> {
    match v {
        Json::Obj(ms) => match unique_str(ms, "id"@) {
            None => None,
            Some(id) => match unique_str(ms, "jsonrpc"@) {
                None => None,
                Some(jsonrpc) => match unique_str(ms, "method"@) {
                    None => None,
                    Some(method) => match unique_obj(ms, "params"@) {
                        None => None,
                        Some(pm) => match unique_str(pm, "name"@) {
                            None => None,
                            Some(name) => Some(
                                GreetingRequestV {
                                    id,
                                    jsonrpc,
                                    method,
                                    params: GreetingParamsV { name },
                                },
                            ),
                        },
                    },
                },
            },
        },
        _ => None,
    }
}

/// What decoding a request body yields: `None` exactly when the body is not
/// valid JSON or not the envelope shape of [`extract_request`].
pub open spec fn decode_request_spec(t: Seq<char>) -> Option<GreetingRequestV> {
    match parse_text_spec(t) {
        None => None,
        Some(v) => extract_request(v),
    }
}

/// Decode a request body: the envelope, or `MalformedRequest` exactly when
/// the body is rejected.
pub fn decode_request(s: &str) -> (r: Result<GreetingRequest, DecodeError>)
    ensures
        (r matches Ok(req) ==> decode_request_spec(s@) == Some(req@)),
        (r is Err) == (decode_request_spec(s@) is None),
{
    match parse_text(s) {
        None => Err(DecodeError::MalformedRequest),
        Some(node) => match node {
            JsonNode::Obj(ms) => {
                let id = match get_unique_str(&ms, &String::from_str("id")) {
                    None => {
                        return Err(DecodeError::MalformedRequest);
                    },
                    Some(t) => t,
                };
                let jsonrpc = match get_unique_str(&ms, &String::from_str("jsonrpc")) {
                    None => {
                        return Err(DecodeError::MalformedRequest);
                    },
                    Some(t) => t,
                };
                let method = match get_unique_str(&ms, &String::from_str("method")) {
                    None => {
                        return Err(DecodeError::MalformedRequest);
                    },
                    Some(t) => t,
                };
                let name = match get_unique_obj(&ms, &String::from_str("params")) {
                    None => {
                        return Err(DecodeError::MalformedRequest);
                    },
                    Some(pm) => match get_unique_str(pm, &String::from_str("name")) {
                        None => {
                            return Err(DecodeError::MalformedRequest);
                        },
                        Some(t) => t,
                    },
                };
                Ok(GreetingRequest { id, jsonrpc, method, params: GreetingParams { name } })
            },
            _ => Err(DecodeError::MalformedRequest),
        },
    }
}

/// Every character of `s` a decimal digit.
pub open spec fn all_digits(s: Seq<char>) -> bool {
    forall|k: int| 0 <= k < s.len() ==> is_digit(s[k])
}

/// The value of a digit string, most significant digit first.
pub open spec fn digits_val(s: Seq<char>) -> int
    decreases s.len(),
{
    if s.len() == 0 {
        0
    } else {
        digits_val(s.drop_last()) * 10 + (s.last() as int - 48)
    }
}

pub open spec fn pow10(k: nat) -> int
    decreases k,
{
    if k == 0 {
        1
    } else {
        10 * pow10((k - 1) as nat)
    }
}

/// The integer a JSON number lexeme denotes, `None` when the lexeme is not
/// a plain integer (a fraction, an exponent, a needless leading zero, or no
/// digit at all).
pub open spec fn as_int(lex: Seq<char>) -> Option<int> {
    if lex.len() >= 1 && lex[0] == '-' {
        let mag = lex.drop_first();
        if mag.len() >= 1 && all_digits(mag) && (mag.len() == 1 || mag[0] != '0') {
            Some(-digits_val(mag))
        } else {
            None
        }
    } else if lex.len() >= 1 && all_digits(lex) && (lex.len() == 1 || lex[0] != '0') {
        Some(digits_val(lex))
    } else {
        None
    }
}

pub proof fn lemma_pow10_pos(k: nat)
    ensures
        pow10(k) >= 1,
    decreases k,
{
    if k > 0 {
        lemma_pow10_pos((k - 1) as nat);
    }
}

pub proof fn lemma_pow10_mono(a: nat, b: nat)
    requires
        a <= b,
    ensures
        pow10(a) <= pow10(b),
    decreases b,
{
    if a < b {
        lemma_pow10_mono(a, (b - 1) as nat);
        lemma_pow10_pos((b - 1) as nat);
    }
}

/// A digit string's value sits under `10^len`, and at or above
/// `10^(len-1)` when it does not start with a zero.
pub proof fn lemma_digits_val_bounds(s: Seq<char>)
    requires
        all_digits(s),
    ensures
        0 <= digits_val(s) < pow10(s.len()),
        s.len() >= 1 && s[0] != '0' ==> digits_val(s) >= pow10((s.len() - 1) as nat),
    decreases s.len(),
{
    if s.len() == 0 {
    } else {
        let head = s.drop_last();
        assert(all_digits(head));
        lemma_digits_val_bounds(head);
        assert(is_digit(s.last()));
        if s.len() >= 1 && s[0] != '0' {
            if s.len() == 1 {
                assert(digits_val(s) == s.last() as int - 48);
            } else {
                assert(head[0] == s[0]);
            }
        }
    }
}

fn all_digits_from(s: &str, n: usize, i: usize) -> (b: bool)
    requires
        n == s@.len(),
        i <= n,
    ensures
        b == (forall|k: int| i <= k < n ==> is_digit(s@[k])),
    decreases n - i,
{
    if i >= n {
        true
    } else if is_digit_exec(s.get_char(i)) {
        all_digits_from(s, n, i + 1)
    } else {
        proof {
            assert(!is_digit(s@[i as int]));
        }
        false
    }
}

fn is_digit_exec(c: char) -> (r: bool)
    ensures
        r == is_digit(c),
{
    '0' <= c && c <= '9'
}

fn digits_val_exec(s: &str, n: usize, start: usize, end: usize) -> (r: i64)
    requires
        n == s@.len(),
        start <= end <= n,
        end - start <= 10,
        forall|k: int| start <= k < end ==> is_digit(s@[k]),
    ensures
        r == digits_val(s@.subrange(start as int, end as int)),
        0 <= r < pow10((end - start) as nat),
    decreases end - start,
{
    if end <= start {
        proof {
            assert(s@.subrange(start as int, start as int) =~= Seq::<char>::empty());
        }
        0
    } else {
        let prefix = digits_val_exec(s, n, start, end - 1);
        let c = s.get_char(end - 1);
        let d: i64 = (c as u32 as i64) - 48;
        proof {
            assert(is_digit(s@[end - 1]));
            let whole = s@.subrange(start as int, end as int);
            assert(whole.drop_last() =~= s@.subrange(start as int, end as int - 1));
            assert(whole.last() == s@[end - 1]);
            lemma_pow10_mono((end - 1 - start) as nat, 9);
            assert(pow10(9) == 1000000000) by {
                reveal_with_fuel(pow10, 11);
            }
        }
        prefix * 10 + d
    }
}

/// Read a decimal integer lexeme into an `i32`: `None` exactly when the
/// lexeme denotes no plain integer or one outside the `i32` range.
pub fn parse_i32_dec(lex: &str) -> (r: Option<i32>)
    ensures
        (r matches Some(v) ==> as_int(lex@) == Some(v as int)),
        (r is None) == (match as_int(lex@) {
            None => true,
            Some(w) => !(-2147483648 <= w <= 2147483647),
        }),
{
    let n: usize = lex.unicode_len();
    let neg = n >= 1 && lex.get_char(0) == '-';
    let start: usize = if neg {
        1
    } else {
        0
    };
    let ghost mag: Seq<char> = if neg {
        lex@.drop_first()
    } else {
        lex@
    };
    proof {
        assert(mag =~= lex@.subrange(start as int, n as int));
    }
    if start >= n {
        return None;
    }
    if !all_digits_from(lex, n, start) {
        proof {
            assert(!all_digits(mag)) by {
                let k = choose|k: int| start <= k < n && !is_digit(lex@[k]);
                assert(mag[k - start] == lex@[k]);
            }
        }
        return None;
    }
    proof {
        assert(all_digits(mag)) by {
            assert forall|k: int| 0 <= k < mag.len() implies is_digit(mag[k]) by {
                assert(mag[k] == lex@[start + k]);
            }
        }
    }
    if n - start > 1 && lex.get_char(start) == '0' {
        return None;
    }
    let m = n - start;
    if m > 10 {
        proof {
            lemma_digits_val_bounds(mag);
            lemma_pow10_mono(10, (m - 1) as nat);
            assert(pow10(10) == 10000000000) by {
                reveal_with_fuel(pow10, 12);
            }
        }
        return None;
    }
    let val = digits_val_exec(lex, n, start, n);
    if neg {
        if val > 2147483648 {
            return None;
        }
        Some((-val) as i32)
    } else {
        if val > 2147483647 {
            return None;
        }
        Some(val as i32)
    }
}

proof fn lemma_dec_digits_shape(n: nat)
    ensures
        all_digits(dec_digits(n)),
        dec_digits(n).len() >= 1,
        n < 10 ==> dec_digits(n).len() == 1,
        n >= 1 ==> dec_digits(n)[0] != '0',
    decreases n,
{
    if n < 10 {
        assert(digit_char(n as int) as int == 48 + n);
        assert(is_digit(dec_digits(n)[0]));
    } else {
        lemma_dec_digits_shape(n / 10);
        let head = dec_digits(n / 10);
        assert(dec_digits(n) == head + seq![digit_char((n % 10) as int)]);
        assert(digit_char((n % 10) as int) as int == 48 + n % 10);
        assert forall|k: int| 0 <= k < dec_digits(n).len() implies is_digit(dec_digits(n)[k]) by {
            if k < head.len() {
                assert(dec_digits(n)[k] == head[k]);
            } else {
                assert(dec_digits(n)[k] == digit_char((n % 10) as int));
            }
        }
        assert(dec_digits(n)[0] == head[0]);
    }
}

proof fn lemma_digits_val_dec(n: nat)
    ensures
        digits_val(dec_digits(n)) == n,
    decreases n,
{
    if n < 10 {
        let s = dec_digits(n);
        assert(s.drop_last() =~= Seq::<char>::empty());
        assert(digits_val(Seq::<char>::empty()) == 0);
        assert(s.last() == digit_char(n as int));
        assert(digit_char(n as int) as int == 48 + n);
    } else {
        lemma_digits_val_dec(n / 10);
        let head = dec_digits(n / 10);
        let s = dec_digits(n);
        assert(s =~= head + seq![digit_char((n % 10) as int)]);
        assert(s.drop_last() =~= head);
        assert(s.last() == digit_char((n % 10) as int));
        assert(digit_char((n % 10) as int) as int == 48 + n % 10);
    }
}

/// Reading back the decimal text of an integer yields that integer: the
/// number half of the codec round trip.
pub proof fn lemma_dec_int_round_trip(v: int)
    ensures
        as_int(dec_int(v)) == Some(v),
{
    if v < 0 {
        let mag = dec_digits((-v) as nat);
        lemma_dec_digits_shape((-v) as nat);
        lemma_digits_val_dec((-v) as nat);
        let lex = seq!['-'] + mag;
        assert(lex[0] == '-');
        assert(lex.drop_first() =~= mag);
    } else {
        let lex = dec_digits(v as nat);
        lemma_dec_digits_shape(v as nat);
        lemma_digits_val_dec(v as nat);
        assert(is_digit(lex[0]));
        assert(lex[0] != '-');
    }
}

proof fn lemma_escape_from_shift(x: Seq<char>, i: int)
    requires
        0 <= i <= x.len(),
    ensures
        escape_from(x, i) == escape_spec(x.subrange(i, x.len() as int)),
    decreases x.len() - i,
{
    let sub = x.subrange(i, x.len() as int);
    if i >= x.len() {
        assert(sub =~= Seq::<char>::empty());
        assert(escape_from(sub, 0) == Seq::<char>::empty());
    } else {
        lemma_escape_from_shift(x, i + 1);
        let tail = sub.subrange(1, sub.len() as int);
        assert(tail =~= x.subrange(i + 1, x.len() as int));
        lemma_escape_from_shift(sub, 1);
        assert(sub[0] == x[i]);
    }
}

proof fn lemma_char_u32(c: char)
    ensures
        (c as u32) as int == c as int,
{
}

proof fn lemma_hex_digit_val(v: int)
    requires
        0 <= v < 16,
    ensures
        hex_val(hex_digit_char(v)) == v,
{
    if v < 10 {
        assert(hex_digit_char(v) as int == 48 + v);
    } else {
        assert(hex_digit_char(v) as int == 87 + v);
    }
}

/// Parsing an escaped string body back out of a larger text recovers the
/// original characters: the string half of the codec round trip. The text
/// holds the escaped characters from `i` on, closed by a quote.
#[verifier::rlimit(100)]
pub proof fn lemma_parse_escaped(s: Seq<char>, x: Seq<char>, i: int)
    requires
        0 <= i,
        i + escape_spec(x).len() + 1 <= s.len(),
        s.subrange(i, i + escape_spec(x).len() + 1) =~= escape_spec(x) + seq!['"'],
    ensures
        parse_string_body(s, i) == Some((x, i + escape_spec(x).len() + 1)),
    decreases x.len(),
{
    let esc_all = escape_spec(x);
    let ln = esc_all.len() as int;
    assert forall|t: int| 0 <= t < ln + 1 implies s[i + t] == (esc_all + seq!['"'])[t] by {
        assert(s.subrange(i, i + ln + 1)[t] == s[i + t]);
    }
    if x.len() == 0 {
        assert(esc_all =~= Seq::<char>::empty());
        assert(s.subrange(i, i + ln + 1)[0] == s[i]);
        assert((esc_all + seq!['"'])[0] == '"');
        assert(s[i] == '"');
        assert(x =~= Seq::<char>::empty());
    } else {
        let c = x[0];
        let rest = x.drop_first();
        lemma_escape_from_shift(x, 1);
        assert(rest =~= x.subrange(1, x.len() as int));
        assert(esc_all == esc_char(c) + escape_spec(rest));
        let e1 = esc_char(c);
        let el = e1.len() as int;
        let esc_rest = escape_spec(rest);
        let rl = esc_rest.len() as int;
        assert(ln == el + rl);
        assert forall|t: int| 0 <= t < el implies s[i + t] == e1[t] by {
            assert((esc_all + seq!['"'])[t] == esc_all[t]);
            assert(esc_all[t] == e1[t]);
        }
        assert(s.subrange(i + el, i + el + rl + 1) =~= esc_rest + seq!['"']) by {
            assert forall|t: int| 0 <= t < rl + 1 implies s.subrange(i + el, i + el + rl + 1)[t]
                == (esc_rest + seq!['"'])[t] by {
                assert(s.subrange(i + el, i + el + rl + 1)[t] == s[i + el + t]);
                assert(s[i + el + t] == (esc_all + seq!['"'])[el + t]);
                if t < rl {
                    assert((esc_all + seq!['"'])[el + t] == esc_all[el + t]);
                    assert(esc_all[el + t] == esc_rest[t]);
                } else {
                    assert((esc_all + seq!['"'])[el + t] == '"');
                }
            }
        }
        lemma_parse_escaped(s, rest, i + el);
        lemma_char_u32(c);
        let u = c as u32;
        if c == '"' || c == '\\' {
            assert(s[i] == e1[0]);
            assert(s[i + 1] == e1[1]);
            assert(parse_string_body(s, i) == cons_char(c, parse_string_body(s, i + 2)));
        } else if u == 0x08 || u == 0x09 || u == 0x0A || u == 0x0C || u == 0x0D {
            assert(s[i] == e1[0]);
            assert(s[i + 1] == e1[1]);
            assert(s[i] == '\\');
            if u == 0x08 {
                assert(e1[1] == 'b');
                assert(c == 8 as char);
            } else if u == 0x09 {
                assert(e1[1] == 't');
                assert(c == '\t');
            } else if u == 0x0A {
                assert(e1[1] == 'n');
                assert(c == '\n');
            } else if u == 0x0C {
                assert(e1[1] == 'f');
                assert(c == 12 as char);
            } else {
                assert(e1[1] == 'r');
                assert(c == '\r');
            }
            assert(parse_string_body(s, i) == cons_char(c, parse_string_body(s, i + 2)));
        } else if u < 0x20 {
            assert(s[i] == e1[0]);
            assert(s[i + 1] == e1[1]);
            assert(s[i + 2] == e1[2]);
            assert(s[i + 3] == e1[3]);
            assert(s[i + 4] == e1[4]);
            assert(s[i + 5] == e1[5]);
            assert(s[i] == '\\');
            assert(s[i + 1] == 'u');
            assert(s[i + 2] == '0');
            assert(s[i + 3] == '0');
            assert(s[i + 4] == hex_digit_char(u as int / 16));
            assert(s[i + 5] == hex_digit_char(u as int % 16));
            lemma_hex_digit_val(u as int / 16);
            lemma_hex_digit_val(u as int % 16);
            assert(hex_val('0') == 0);
            assert(hex4(s, i + 2) == u as int);
            assert(parse_string_body(s, i) == cons_char(
                (u as int) as char,
                parse_string_body(s, i + 6),
            ));
            assert((u as int) as char == c);
        } else {
            assert(s[i] == e1[0]);
            assert(s[i] == c);
            assert(parse_string_body(s, i) == cons_char(c, parse_string_body(s, i + 1)));
        }
        assert(seq![c] + rest =~= x);
    }
}

/// The response envelope a JSON value holds: an object with string `id` and
/// `jsonrpc`, and either a `result` object with a string `greeting` (when
/// no `error` member is present), or an `error` object with an integer
/// `code` in `i32` range and a string `message`. Members beyond these are
/// allowed and ignored.
pub open spec fn extract_response(v: Json) -> Option<ResponseV> {
    match v {
        Json::Obj(ms) => match unique_str(ms, "id"@) {
            None => None,
            Some(id) => match unique_str(ms, "jsonrpc"@) {
                None => None,
                Some(jsonrpc) => if key_count_from(ms, "error"@, 0) == 0 {
                    match unique_obj(ms, "result"@) {
                        None => None,
                        Some(res) => match unique_str(res, "greeting"@) {
                            None => None,
                            Some(greeting) => Some(
                                ResponseV::Success(
                                    GreetingResponseV {
                                        id,
                                        jsonrpc,
                                        result: GreetingResultV { greeting },
                                    },
                                ),
                            ),
                        },
                    }
                } else {
                    match unique_obj(ms, "error"@) {
                        None => None,
                        Some(err) => match unique_num(err, "code"@) {
                            None => None,
                            Some(lex) => match as_int(lex) {
                                None => None,
                                Some(code) => if -2147483648 <= code <= 2147483647 {
                                    match unique_str(err, "message"@) {
                                        None => None,
                                        Some(message) => Some(
                                            ResponseV::Error(
                                                MethodNotFoundErrorResponseV {
                                                    error: MethodNotFoundErrorV { code, message },
                                                    id,
                                                    jsonrpc,
                                                },
                                            ),
                                        ),
                                    }
                                } else {
                                    None
                                },
                            },
                        },
                    }
                },
            },
        },
        _ => None,
    }
}

proof fn lemma_escape_plain_from(x: Seq<char>, i: int)
    requires
        0 <= i <= x.len(),
        forall|k: int| 0 <= k < x.len() ==> x[k] != '"' && x[k] != '\\' && (x[k] as u32) >= 0x20,
    ensures
        escape_from(x, i) =~= x.subrange(i, x.len() as int),
    decreases x.len() - i,
{
    if i >= x.len() {
    } else {
        lemma_escape_plain_from(x, i + 1);
        assert(esc_char(x[i]) == seq![x[i]]);
    }
}

/// A string without quotes, backslashes or control characters escapes to
/// itself.
proof fn lemma_escape_plain(x: Seq<char>)
    requires
        forall|k: int| 0 <= k < x.len() ==> x[k] != '"' && x[k] != '\\' && (x[k] as u32) >= 0x20,
    ensures
        escape_spec(x) == x,
{
    lemma_escape_plain_from(x, 0);
    assert(x.subrange(0, x.len() as int) =~= x);
}

proof fn lemma_skip_digits_region(s: Seq<char>, i: int, j: int)
    requires
        0 <= i <= j <= s.len(),
        forall|k: int| i <= k < j ==> is_digit(s[k]),
        j == s.len() || !is_digit(s[j]),
    ensures
        crate::json::skip_digits(s, i) == j,
    decreases j - i,
{
    if i < j {
        lemma_skip_digits_region(s, i + 1, j);
    }
}

/// A decimal integer region bounded by a non-number character parses as one
/// number lexeme, ending exactly at the boundary.
proof fn lemma_parse_number_region(s: Seq<char>, v: int, i: int)
    requires
        0 <= i,
        i + dec_int(v).len() < s.len(),
        s.subrange(i, i + dec_int(v).len()) =~= dec_int(v),
        !is_digit(s[i + dec_int(v).len()]),
        s[i + dec_int(v).len()] != '.',
        s[i + dec_int(v).len()] != 'e',
        s[i + dec_int(v).len()] != 'E',
        s[i + dec_int(v).len()] != '-',
    ensures
        crate::json::parse_number_end(s, i) == Some(i + dec_int(v).len() as int),
{
    let lex = dec_int(v);
    let ll = lex.len() as int;
    let end = i + ll;
    assert forall|t: int| 0 <= t < ll implies s[i + t] == lex[t] by {
        assert(s.subrange(i, end)[t] == s[i + t]);
    }
    if v < 0 {
        let mag = dec_digits((-v) as nat);
        lemma_dec_digits_shape((-v) as nat);
        assert(s.subrange(i, end)[0] == s[i]);
        assert(lex[0] == '-');
        assert(s[i] == '-');
        assert forall|k: int| i + 1 <= k < end implies is_digit(s[k]) by {
            assert(s.subrange(i, end)[k - i] == s[k]);
            assert(lex[k - i] == mag[k - i - 1]);
        }
        assert(s.subrange(i, end)[1] == s[i + 1]);
        assert(lex[1] == mag[0]);
        assert(s[i + 1] == mag[0]);
        if (-v) < 10 {
            assert(mag.len() == 1);
            if s[i + 1] == '0' {
                assert(end == i + 2);
            } else {
                lemma_skip_digits_region(s, i + 1, end);
            }
        } else {
            assert(s[i + 1] != '0');
            lemma_skip_digits_region(s, i + 1, end);
        }
    } else {
        let mag = dec_digits(v as nat);
        lemma_dec_digits_shape(v as nat);
        assert forall|k: int| i <= k < end implies is_digit(s[k]) by {
            assert(s.subrange(i, end)[k - i] == s[k]);
            assert(lex[k - i] == mag[k - i]);
        }
        assert(s.subrange(i, end)[0] == s[i]);
        assert(s[i] == mag[0]);
        assert(s[i] != '-');
        if v < 10 {
            assert(mag.len() == 1);
            if s[i] == '0' {
                assert(end == i + 1);
            } else {
                lemma_skip_digits_region(s, i, end);
            }
        } else {
            assert(s[i] != '0');
            lemma_skip_digits_region(s, i, end);
        }
    }
}


/// Parsing the canonical text of a success envelope yields exactly its
/// JSON value: the text half of the codec round trip.
#[verifier::rlimit(100)]
pub proof fn lemma_parse_encoded_success(r: GreetingResponseV)
    ensures
        parse_text_spec(encode_success_spec(r)) == Some(success_json(r)),
{
    reveal_strlit("{\"id\":\"");
    reveal_strlit("\",\"jsonrpc\":\"");
    reveal_strlit("\",\"result\":{\"greeting\":\"");
    reveal_strlit("\"}}");
    reveal_strlit("id");
    reveal_strlit("jsonrpc");
    reveal_strlit("result");
    reveal_strlit("greeting");
    let t = encode_success_spec(r);
    let e1 = escape_spec(r.id);
    let e2 = escape_spec(r.jsonrpc);
    let e3 = escape_spec(r.result.greeting);
    let a = e1.len() as int;
    let b = e2.len() as int;
    let g = e3.len() as int;
    assert(("{\"id\":\""@).len() == 7);
    assert(("\",\"jsonrpc\":\""@).len() == 13);
    assert(("\",\"result\":{\"greeting\":\""@).len() == 24);
    assert(("\"}}"@).len() == 3);
    let q1 = 7 + a;
    let q2 = q1 + 13 + b;
    let q3 = q2 + 24 + g;
    let n = t.len() as int;
    assert(n == q3 + 3);

    assert(escape_spec("id"@) =~= "id"@) by {
        reveal_with_fuel(escape_from, 4);
    }
    assert(escape_spec("id"@).len() == 2);
    assert(escape_spec("jsonrpc"@) =~= "jsonrpc"@) by {
        reveal_with_fuel(escape_from, 9);
    }
    assert(escape_spec("jsonrpc"@).len() == 7);
    assert(escape_spec("result"@) =~= "result"@) by {
        reveal_with_fuel(escape_from, 8);
    }
    assert(escape_spec("result"@).len() == 6);
    assert(escape_spec("greeting"@) =~= "greeting"@) by {
        reveal_with_fuel(escape_from, 10);
    }
    assert(escape_spec("greeting"@).len() == 8);

    assert(t[0] == '{');
    assert(t[1] == '"');
    assert(t[5] == ':');
    assert(t[6] == '"');
    assert(t[q1 + 1] == ',');
    assert(t[q1 + 2] == '"');
    assert(t[q1 + 11] == ':');
    assert(t[q1 + 12] == '"');
    assert(t[q2 + 1] == ',');
    assert(t[q2 + 2] == '"');
    assert(t[q2 + 10] == ':');
    assert(t[q2 + 11] == '{');
    assert(t[q2 + 12] == '"');
    assert(t[q2 + 22] == ':');
    assert(t[q2 + 23] == '"');
    assert(t[q3 + 1] == '}');
    assert(t[q3 + 2] == '}');

    assert(t.subrange(2int, 5) =~= "id"@ + seq!['"']) by {
        assert forall|u: int| 0 <= u < 3 implies t.subrange(2int, 5)[u] == ("id"@ + seq!['"'])[u] by {
            assert(t.subrange(2int, 5)[u] == t[2 + u]);
            if u == 0 {
                assert(t[2int + 0] == 'i');
                assert(("id"@)[0] == 'i');
            } else if u == 1 {
                assert(t[2int + 1] == 'd');
                assert(("id"@)[1] == 'd');
            } else {
                assert(t[2int + 2] == '"');
            }
        }
    }
    lemma_parse_escaped(t, "id"@, 2);
    assert(t.subrange(7int, q1 + 1) =~= e1 + seq!['"']) by {
        assert forall|u: int| 0 <= u < e1.len() + 1 implies t.subrange(7int, q1 + 1)[u] == (e1 + seq!['"'])[u] by {
            assert(t.subrange(7int, q1 + 1)[u] == t[7 + u]);
            if u < e1.len() {
                assert(t[7int + u] == e1[u]);
            } else {
                assert(t[7int + u] == '"');
            }
        }
    }
    lemma_parse_escaped(t, r.id, 7);
    assert(t.subrange(q1 + 3, q1 + 3 + 8) =~= "jsonrpc"@ + seq!['"']) by {
        assert forall|u: int| 0 <= u < 8 implies t.subrange(q1 + 3, q1 + 3 + 8)[u] == ("jsonrpc"@ + seq!['"'])[u] by {
            assert(t.subrange(q1 + 3, q1 + 3 + 8)[u] == t[q1 + 3 + u]);
            if u == 0 {
                assert(t[q1 + 3 + 0] == 'j');
                assert(("jsonrpc"@)[0] == 'j');
            } else if u == 1 {
                assert(t[q1 + 3 + 1] == 's');
                assert(("jsonrpc"@)[1] == 's');
            } else if u == 2 {
                assert(t[q1 + 3 + 2] == 'o');
                assert(("jsonrpc"@)[2] == 'o');
            } else if u == 3 {
                assert(t[q1 + 3 + 3] == 'n');
                assert(("jsonrpc"@)[3] == 'n');
            } else if u == 4 {
                assert(t[q1 + 3 + 4] == 'r');
                assert(("jsonrpc"@)[4] == 'r');
            } else if u == 5 {
                assert(t[q1 + 3 + 5] == 'p');
                assert(("jsonrpc"@)[5] == 'p');
            } else if u == 6 {
                assert(t[q1 + 3 + 6] == 'c');
                assert(("jsonrpc"@)[6] == 'c');
            } else {
                assert(t[q1 + 3 + 7] == '"');
            }
        }
    }
    lemma_parse_escaped(t, "jsonrpc"@, q1 + 3);
    assert(t.subrange(q1 + 13, q2 + 1) =~= e2 + seq!['"']) by {
        assert forall|u: int| 0 <= u < e2.len() + 1 implies t.subrange(q1 + 13, q2 + 1)[u] == (e2 + seq!['"'])[u] by {
            assert(t.subrange(q1 + 13, q2 + 1)[u] == t[q1 + 13 + u]);
            if u < e2.len() {
                assert(t[q1 + 13 + u] == e2[u]);
            } else {
                assert(t[q1 + 13 + u] == '"');
            }
        }
    }
    lemma_parse_escaped(t, r.jsonrpc, q1 + 13);
    assert(t.subrange(q2 + 3, q2 + 3 + 7) =~= "result"@ + seq!['"']) by {
        assert forall|u: int| 0 <= u < 7 implies t.subrange(q2 + 3, q2 + 3 + 7)[u] == ("result"@ + seq!['"'])[u] by {
            assert(t.subrange(q2 + 3, q2 + 3 + 7)[u] == t[q2 + 3 + u]);
            if u == 0 {
                assert(t[q2 + 3 + 0] == 'r');
                assert(("result"@)[0] == 'r');
            } else if u == 1 {
                assert(t[q2 + 3 + 1] == 'e');
                assert(("result"@)[1] == 'e');
            } else if u == 2 {
                assert(t[q2 + 3 + 2] == 's');
                assert(("result"@)[2] == 's');
            } else if u == 3 {
                assert(t[q2 + 3 + 3] == 'u');
                assert(("result"@)[3] == 'u');
            } else if u == 4 {
                assert(t[q2 + 3 + 4] == 'l');
                assert(("result"@)[4] == 'l');
            } else if u == 5 {
                assert(t[q2 + 3 + 5] == 't');
                assert(("result"@)[5] == 't');
            } else {
                assert(t[q2 + 3 + 6] == '"');
            }
        }
    }
    lemma_parse_escaped(t, "result"@, q2 + 3);
    assert(t.subrange(q2 + 13, q2 + 13 + 9) =~= "greeting"@ + seq!['"']) by {
        assert forall|u: int| 0 <= u < 9 implies t.subrange(q2 + 13, q2 + 13 + 9)[u] == ("greeting"@ + seq!['"'])[u] by {
            assert(t.subrange(q2 + 13, q2 + 13 + 9)[u] == t[q2 + 13 + u]);
            if u == 0 {
                assert(t[q2 + 13 + 0] == 'g');
                assert(("greeting"@)[0] == 'g');
            } else if u == 1 {
                assert(t[q2 + 13 + 1] == 'r');
                assert(("greeting"@)[1] == 'r');
            } else if u == 2 {
                assert(t[q2 + 13 + 2] == 'e');
                assert(("greeting"@)[2] == 'e');
            } else if u == 3 {
                assert(t[q2 + 13 + 3] == 'e');
                assert(("greeting"@)[3] == 'e');
            } else if u == 4 {
                assert(t[q2 + 13 + 4] == 't');
                assert(("greeting"@)[4] == 't');
            } else if u == 5 {
                assert(t[q2 + 13 + 5] == 'i');
                assert(("greeting"@)[5] == 'i');
            } else if u == 6 {
                assert(t[q2 + 13 + 6] == 'n');
                assert(("greeting"@)[6] == 'n');
            } else if u == 7 {
                assert(t[q2 + 13 + 7] == 'g');
                assert(("greeting"@)[7] == 'g');
            } else {
                assert(t[q2 + 13 + 8] == '"');
            }
        }
    }
    lemma_parse_escaped(t, "greeting"@, q2 + 13);
    assert(t.subrange(q2 + 24, q3 + 1) =~= e3 + seq!['"']) by {
        assert forall|u: int| 0 <= u < e3.len() + 1 implies t.subrange(q2 + 24, q3 + 1)[u] == (e3 + seq!['"'])[u] by {
            assert(t.subrange(q2 + 24, q3 + 1)[u] == t[q2 + 24 + u]);
            if u < e3.len() {
                assert(t[q2 + 24 + u] == e3[u]);
            } else {
                assert(t[q2 + 24 + u] == '"');
            }
        }
    }
    lemma_parse_escaped(t, r.result.greeting, q2 + 24);

    // walk the parse from the innermost member outward
    let m3 = ("greeting"@, Json::Str(r.result.greeting));
    let m2 = ("result"@, Json::Obj(seq![m3]));
    let m1 = ("jsonrpc"@, Json::Str(r.jsonrpc));
    let m0 = ("id"@, Json::Str(r.id));
    assert(seq![m3] + Seq::<(Seq<char>, Json)>::empty() =~= seq![m3]);
    assert(parse_string_body(t, 2) == Some(("id"@, 5int)));
    assert(advance(1, 5, n) == 5);
    assert(parse_colon(t, 5) == Some(6int));
    assert(advance(5, 6, n) == 6);
    assert(parse_value(t, 6) == Some((Json::Str(r.id), q1 + 1)));
    assert(advance(6, q1 + 1, n) == q1 + 1);
    assert(parse_string_body(t, q1 + 3) == Some(("jsonrpc"@, q1 + 11)));
    assert(advance(q1 + 2, q1 + 11, n) == q1 + 11);
    assert(parse_colon(t, q1 + 11) == Some(q1 + 12));
    assert(advance(q1 + 11, q1 + 12, n) == q1 + 12);
    assert(parse_value(t, q1 + 12) == Some((Json::Str(r.jsonrpc), q2 + 1)));
    assert(advance(q1 + 12, q2 + 1, n) == q2 + 1);
    assert(parse_string_body(t, q2 + 3) == Some(("result"@, q2 + 10)));
    assert(advance(q2 + 2, q2 + 10, n) == q2 + 10);
    assert(parse_colon(t, q2 + 10) == Some(q2 + 11));
    assert(advance(q2 + 10, q2 + 11, n) == q2 + 11);
    assert(parse_string_body(t, q2 + 13) == Some(("greeting"@, q2 + 22)));
    assert(advance(q2 + 12, q2 + 22, n) == q2 + 22);
    assert(parse_colon(t, q2 + 22) == Some(q2 + 23));
    assert(advance(q2 + 22, q2 + 23, n) == q2 + 23);
    assert(parse_value(t, q2 + 23) == Some((Json::Str(r.result.greeting), q3 + 1)));
    assert(advance(q2 + 23, q3 + 1, n) == q3 + 1);
    assert(parse_obj_tail(t, q3 + 1) == Some((Seq::<(Seq<char>, Json)>::empty(), q3 + 2)));
    assert(parse_members(t, q2 + 12) == Some((seq![m3], q3 + 2)));
    assert(parse_obj_body(t, q2 + 12) == Some((seq![m3], q3 + 2)));
    assert(parse_value(t, q2 + 11) == Some((Json::Obj(seq![m3]), q3 + 2)));
    assert(advance(q2 + 11, q3 + 2, n) == q3 + 2);
    assert(parse_obj_tail(t, q3 + 2) == Some((Seq::<(Seq<char>, Json)>::empty(), q3 + 3)));
    assert(seq![m2] + Seq::<(Seq<char>, Json)>::empty() =~= seq![m2]);
    assert(parse_members(t, q2 + 2) == Some((seq![m2], q3 + 3)));
    assert(parse_obj_tail(t, q2 + 1) == Some((seq![m2], q3 + 3)));
    assert(seq![m1] + seq![m2] =~= seq![m1, m2]);
    assert(parse_members(t, q1 + 2) == Some((seq![m1, m2], q3 + 3)));
    assert(parse_obj_tail(t, q1 + 1) == Some((seq![m1, m2], q3 + 3)));
    assert(seq![m0] + seq![m1, m2] =~= seq![m0, m1, m2]);
    assert(parse_members(t, 1) == Some((seq![m0, m1, m2], q3 + 3)));
    assert(parse_obj_body(t, 1) == Some((seq![m0, m1, m2], q3 + 3)));
    assert(parse_value(t, 0) == Some((Json::Obj(seq![m0, m1, m2]), q3 + 3)));
    assert(ws_only(t, n));
    assert(seq![m0, m1, m2] =~= success_json(r)->Obj_0);
}


/// Parsing the canonical text of an error envelope yields exactly its
/// JSON value: the text half of the codec round trip.
#[verifier::rlimit(100)]
pub proof fn lemma_parse_encoded_error(e: MethodNotFoundErrorResponseV)
    ensures
        parse_text_spec(encode_error_spec(e)) == Some(error_json(e)),
{
    reveal_strlit("{\"error\":{\"code\":");
    reveal_strlit(",\"message\":\"");
    reveal_strlit("\"},\"id\":\"");
    reveal_strlit("\",\"jsonrpc\":\"");
    reveal_strlit("\"}");
    reveal_strlit("error");
    reveal_strlit("code");
    reveal_strlit("message");
    reveal_strlit("id");
    reveal_strlit("jsonrpc");
    let t = encode_error_spec(e);
    let code = e.error.code;
    let d = dec_int(code);
    let em = escape_spec(e.error.message);
    let ei = escape_spec(e.id);
    let ej = escape_spec(e.jsonrpc);
    let dl = d.len() as int;
    let a = em.len() as int;
    let b = ei.len() as int;
    let g = ej.len() as int;
    assert(("{\"error\":{\"code\":"@).len() == 17);
    assert((",\"message\":\""@).len() == 12);
    assert(("\"},\"id\":\""@).len() == 9);
    assert(("\",\"jsonrpc\":\""@).len() == 13);
    assert(("\"}"@).len() == 2);
    if code < 0 {
        lemma_dec_digits_shape((-code) as nat);
    } else {
        lemma_dec_digits_shape(code as nat);
    }
    assert(dl >= 1);
    let p = 17 + dl;
    let q = p + 12 + a;
    let q2 = q + 9 + b;
    let q3 = q2 + 13 + g;
    let n = t.len() as int;
    assert(n == q3 + 2);

    assert(escape_spec("error"@) =~= "error"@) by {
        reveal_with_fuel(escape_from, 7);
    }
    assert(escape_spec("error"@).len() == 5);
    assert(escape_spec("code"@) =~= "code"@) by {
        reveal_with_fuel(escape_from, 6);
    }
    assert(escape_spec("code"@).len() == 4);
    assert(escape_spec("message"@) =~= "message"@) by {
        reveal_with_fuel(escape_from, 9);
    }
    assert(escape_spec("message"@).len() == 7);
    assert(escape_spec("id"@) =~= "id"@) by {
        reveal_with_fuel(escape_from, 4);
    }
    assert(escape_spec("id"@).len() == 2);
    assert(escape_spec("jsonrpc"@) =~= "jsonrpc"@) by {
        reveal_with_fuel(escape_from, 9);
    }
    assert(escape_spec("jsonrpc"@).len() == 7);

    assert(t[0] == '{');
    assert(t[1] == '"');
    assert(t[8] == ':');
    assert(t[9] == '{');
    assert(t[10] == '"');
    assert(t[16] == ':');
    assert(t[p] == ',');
    assert(t[p + 1] == '"');
    assert(t[p + 10] == ':');
    assert(t[p + 11] == '"');
    assert(t[q + 1] == '}');
    assert(t[q + 2] == ',');
    assert(t[q + 3] == '"');
    assert(t[q + 6] == '"');
    assert(t[q + 7] == ':');
    assert(t[q + 8] == '"');
    assert(t[q2 + 1] == ',');
    assert(t[q2 + 2] == '"');
    assert(t[q2 + 11] == ':');
    assert(t[q2 + 12] == '"');
    assert(t[q3 + 1] == '}');

    assert(t.subrange(2int, 2int + 6) =~= "error"@ + seq!['"']) by {
        assert forall|u: int| 0 <= u < 6 implies t.subrange(2int, 2int + 6)[u] == ("error"@ + seq!['"'])[u] by {
            assert(t.subrange(2int, 2int + 6)[u] == t[2int + u]);
            if u == 0 {
                assert(t[2int + 0] == 'e');
                assert(("error"@)[0] == 'e');
            } else if u == 1 {
                assert(t[2int + 1] == 'r');
                assert(("error"@)[1] == 'r');
            } else if u == 2 {
                assert(t[2int + 2] == 'r');
                assert(("error"@)[2] == 'r');
            } else if u == 3 {
                assert(t[2int + 3] == 'o');
                assert(("error"@)[3] == 'o');
            } else if u == 4 {
                assert(t[2int + 4] == 'r');
                assert(("error"@)[4] == 'r');
            } else {
                assert(t[2int + 5] == '"');
            }
        }
    }
    lemma_parse_escaped(t, "error"@, 2int);
    assert(t.subrange(11int, 11int + 5) =~= "code"@ + seq!['"']) by {
        assert forall|u: int| 0 <= u < 5 implies t.subrange(11int, 11int + 5)[u] == ("code"@ + seq!['"'])[u] by {
            assert(t.subrange(11int, 11int + 5)[u] == t[11int + u]);
            if u == 0 {
                assert(t[11int + 0] == 'c');
                assert(("code"@)[0] == 'c');
            } else if u == 1 {
                assert(t[11int + 1] == 'o');
                assert(("code"@)[1] == 'o');
            } else if u == 2 {
                assert(t[11int + 2] == 'd');
                assert(("code"@)[2] == 'd');
            } else if u == 3 {
                assert(t[11int + 3] == 'e');
                assert(("code"@)[3] == 'e');
            } else {
                assert(t[11int + 4] == '"');
            }
        }
    }
    lemma_parse_escaped(t, "code"@, 11int);

    assert(t.subrange(17int, p) =~= d) by {
        assert forall|u: int| 0 <= u < dl implies t.subrange(17int, p)[u] == d[u] by {
            assert(t.subrange(17int, p)[u] == t[17 + u]);
            assert(t[17int + u] == d[u]);
        }
    }
    lemma_parse_number_region(t, code as int, 17);

    assert(t.subrange(p + 2, p + 2 + 8) =~= "message"@ + seq!['"']) by {
        assert forall|u: int| 0 <= u < 8 implies t.subrange(p + 2, p + 2 + 8)[u] == ("message"@ + seq!['"'])[u] by {
            assert(t.subrange(p + 2, p + 2 + 8)[u] == t[p + 2 + u]);
            if u == 0 {
                assert(t[p + 2 + 0] == 'm');
                assert(("message"@)[0] == 'm');
            } else if u == 1 {
                assert(t[p + 2 + 1] == 'e');
                assert(("message"@)[1] == 'e');
            } else if u == 2 {
                assert(t[p + 2 + 2] == 's');
                assert(("message"@)[2] == 's');
            } else if u == 3 {
                assert(t[p + 2 + 3] == 's');
                assert(("message"@)[3] == 's');
            } else if u == 4 {
                assert(t[p + 2 + 4] == 'a');
                assert(("message"@)[4] == 'a');
            } else if u == 5 {
                assert(t[p + 2 + 5] == 'g');
                assert(("message"@)[5] == 'g');
            } else if u == 6 {
                assert(t[p + 2 + 6] == 'e');
                assert(("message"@)[6] == 'e');
            } else {
                assert(t[p + 2 + 7] == '"');
            }
        }
    }
    lemma_parse_escaped(t, "message"@, p + 2);
    assert(t.subrange(p + 12, q + 1) =~= em + seq!['"']) by {
        assert forall|u: int| 0 <= u < em.len() + 1 implies t.subrange(p + 12, q + 1)[u] == (em + seq!['"'])[u] by {
            assert(t.subrange(p + 12, q + 1)[u] == t[p + 12 + u]);
            if u < em.len() {
                assert(t[p + 12 + u] == em[u]);
            } else {
                assert(t[p + 12 + u] == '"');
            }
        }
    }
    lemma_parse_escaped(t, e.error.message, p + 12);
    assert(t.subrange(q + 4, q + 4 + 3) =~= "id"@ + seq!['"']) by {
        assert forall|u: int| 0 <= u < 3 implies t.subrange(q + 4, q + 4 + 3)[u] == ("id"@ + seq!['"'])[u] by {
            assert(t.subrange(q + 4, q + 4 + 3)[u] == t[q + 4 + u]);
            if u == 0 {
                assert(t[q + 4 + 0] == 'i');
                assert(("id"@)[0] == 'i');
            } else if u == 1 {
                assert(t[q + 4 + 1] == 'd');
                assert(("id"@)[1] == 'd');
            } else {
                assert(t[q + 4 + 2] == '"');
            }
        }
    }
    lemma_parse_escaped(t, "id"@, q + 4);
    assert(t.subrange(q + 9, q2 + 1) =~= ei + seq!['"']) by {
        assert forall|u: int| 0 <= u < ei.len() + 1 implies t.subrange(q + 9, q2 + 1)[u] == (ei + seq!['"'])[u] by {
            assert(t.subrange(q + 9, q2 + 1)[u] == t[q + 9 + u]);
            if u < ei.len() {
                assert(t[q + 9 + u] == ei[u]);
            } else {
                assert(t[q + 9 + u] == '"');
            }
        }
    }
    lemma_parse_escaped(t, e.id, q + 9);
    assert(t.subrange(q2 + 3, q2 + 3 + 8) =~= "jsonrpc"@ + seq!['"']) by {
        assert forall|u: int| 0 <= u < 8 implies t.subrange(q2 + 3, q2 + 3 + 8)[u] == ("jsonrpc"@ + seq!['"'])[u] by {
            assert(t.subrange(q2 + 3, q2 + 3 + 8)[u] == t[q2 + 3 + u]);
            if u == 0 {
                assert(t[q2 + 3 + 0] == 'j');
                assert(("jsonrpc"@)[0] == 'j');
            } else if u == 1 {
                assert(t[q2 + 3 + 1] == 's');
                assert(("jsonrpc"@)[1] == 's');
            } else if u == 2 {
                assert(t[q2 + 3 + 2] == 'o');
                assert(("jsonrpc"@)[2] == 'o');
            } else if u == 3 {
                assert(t[q2 + 3 + 3] == 'n');
                assert(("jsonrpc"@)[3] == 'n');
            } else if u == 4 {
                assert(t[q2 + 3 + 4] == 'r');
                assert(("jsonrpc"@)[4] == 'r');
            } else if u == 5 {
                assert(t[q2 + 3 + 5] == 'p');
                assert(("jsonrpc"@)[5] == 'p');
            } else if u == 6 {
                assert(t[q2 + 3 + 6] == 'c');
                assert(("jsonrpc"@)[6] == 'c');
            } else {
                assert(t[q2 + 3 + 7] == '"');
            }
        }
    }
    lemma_parse_escaped(t, "jsonrpc"@, q2 + 3);
    assert(t.subrange(q2 + 13, q3 + 1) =~= ej + seq!['"']) by {
        assert forall|u: int| 0 <= u < ej.len() + 1 implies t.subrange(q2 + 13, q3 + 1)[u] == (ej + seq!['"'])[u] by {
            assert(t.subrange(q2 + 13, q3 + 1)[u] == t[q2 + 13 + u]);
            if u < ej.len() {
                assert(t[q2 + 13 + u] == ej[u]);
            } else {
                assert(t[q2 + 13 + u] == '"');
            }
        }
    }
    lemma_parse_escaped(t, e.jsonrpc, q2 + 13);

    let mc = ("code"@, Json::Num(d));
    let mm = ("message"@, Json::Str(e.error.message));
    let me = ("error"@, Json::Obj(seq![mc, mm]));
    let mi = ("id"@, Json::Str(e.id));
    let mj = ("jsonrpc"@, Json::Str(e.jsonrpc));
    assert(parse_string_body(t, 2) == Some(("error"@, 8int)));
    assert(advance(1, 8, n) == 8);
    assert(parse_colon(t, 8) == Some(9int));
    assert(advance(8, 9, n) == 9);
    assert(parse_string_body(t, 11) == Some(("code"@, 16int)));
    assert(advance(10, 16, n) == 16);
    assert(parse_colon(t, 16) == Some(17int));
    assert(advance(16, 17, n) == 17);
    assert(crate::json::parse_number_end(t, 17) == Some(p));
    assert(advance(17, p, n) == p);
    assert(t.subrange(17int, advance(17, p, n)) =~= d);
    assert(parse_value(t, 17) == Some((Json::Num(d), p)));
    assert(parse_string_body(t, p + 2) == Some(("message"@, p + 10)));
    assert(advance(p + 1, p + 10, n) == p + 10);
    assert(parse_colon(t, p + 10) == Some(p + 11));
    assert(advance(p + 10, p + 11, n) == p + 11);
    assert(parse_value(t, p + 11) == Some((Json::Str(e.error.message), q + 1)));
    assert(advance(p + 11, q + 1, n) == q + 1);
    assert(parse_obj_tail(t, q + 1) == Some((Seq::<(Seq<char>, Json)>::empty(), q + 2)));
    assert(seq![mm] + Seq::<(Seq<char>, Json)>::empty() =~= seq![mm]);
    assert(parse_members(t, p + 1) == Some((seq![mm], q + 2)));
    assert(parse_obj_tail(t, p) == Some((seq![mm], q + 2)));
    assert(seq![mc] + seq![mm] =~= seq![mc, mm]);
    assert(parse_members(t, 10) == Some((seq![mc, mm], q + 2)));
    assert(parse_obj_body(t, 10) == Some((seq![mc, mm], q + 2)));
    assert(parse_value(t, 9) == Some((Json::Obj(seq![mc, mm]), q + 2)));
    assert(advance(9, q + 2, n) == q + 2);
    assert(parse_string_body(t, q + 4) == Some(("id"@, q + 7)));
    assert(advance(q + 3, q + 7, n) == q + 7);
    assert(parse_colon(t, q + 7) == Some(q + 8));
    assert(advance(q + 7, q + 8, n) == q + 8);
    assert(parse_value(t, q + 8) == Some((Json::Str(e.id), q2 + 1)));
    assert(advance(q + 8, q2 + 1, n) == q2 + 1);
    assert(parse_string_body(t, q2 + 3) == Some(("jsonrpc"@, q2 + 11)));
    assert(advance(q2 + 2, q2 + 11, n) == q2 + 11);
    assert(parse_colon(t, q2 + 11) == Some(q2 + 12));
    assert(advance(q2 + 11, q2 + 12, n) == q2 + 12);
    assert(parse_value(t, q2 + 12) == Some((Json::Str(e.jsonrpc), q3 + 1)));
    assert(advance(q2 + 12, q3 + 1, n) == q3 + 1);
    assert(parse_obj_tail(t, q3 + 1) == Some((Seq::<(Seq<char>, Json)>::empty(), q3 + 2)));
    assert(seq![mj] + Seq::<(Seq<char>, Json)>::empty() =~= seq![mj]);
    assert(parse_members(t, q2 + 2) == Some((seq![mj], q3 + 2)));
    assert(parse_obj_tail(t, q2 + 1) == Some((seq![mj], q3 + 2)));
    assert(seq![mi] + seq![mj] =~= seq![mi, mj]);
    assert(parse_members(t, q + 3) == Some((seq![mi, mj], q3 + 2)));
    assert(parse_obj_tail(t, q + 2) == Some((seq![mi, mj], q3 + 2)));
    assert(seq![me] + seq![mi, mj] =~= seq![me, mi, mj]);
    assert(parse_members(t, 1) == Some((seq![me, mi, mj], q3 + 2)));
    assert(parse_obj_body(t, 1) == Some((seq![me, mi, mj], q3 + 2)));
    assert(parse_value(t, 0) == Some((Json::Obj(seq![me, mi, mj]), q3 + 2)));
    assert(ws_only(t, n));
    assert(seq![me, mi, mj] =~= error_json(e)->Obj_0);
}

/// The JSON value a success envelope serializes to.
pub open spec fn success_json(r: GreetingResponseV) -> Json {
    Json::Obj(
        seq![
            ("id"@, Json::Str(r.id)),
            ("jsonrpc"@, Json::Str(r.jsonrpc)),
            ("result"@, Json::Obj(seq![("greeting"@, Json::Str(r.result.greeting))])),
        ],
    )
}

/// The JSON value an error envelope serializes to.
pub open spec fn error_json(e: MethodNotFoundErrorResponseV) -> Json {
    Json::Obj(
        seq![
            (
                "error"@,
                Json::Obj(
                    seq![
                        ("code"@, Json::Num(dec_int(e.error.code))),
                        ("message"@, Json::Str(e.error.message)),
                    ],
                ),
            ),
            ("id"@, Json::Str(e.id)),
            ("jsonrpc"@, Json::Str(e.jsonrpc)),
        ],
    )
}

/// Decoding undoes encoding for a success envelope, at the level of the
/// JSON value it serializes to: extraction recovers the envelope exactly.
pub proof fn lemma_extract_success(r: GreetingResponseV)
    ensures
        extract_response(success_json(r)) == Some(ResponseV::Success(r)),
{
    reveal_strlit("id");
    reveal_strlit("jsonrpc");
    reveal_strlit("result");
    reveal_strlit("error");
    reveal_strlit("greeting");
    let ms = success_json(r)->Obj_0;
    reveal_with_fuel(key_count_from, 6);
    reveal_with_fuel(crate::json::lookup_from, 6);
    assert("id"@.len() == 2);
    assert("jsonrpc"@.len() == 7);
    assert("result"@.len() == 6);
    assert("error"@.len() == 5);
    assert("greeting"@.len() == 8);
    assert(key_count_from(ms, "id"@, 0) == 1);
    assert(key_count_from(ms, "jsonrpc"@, 0) == 1);
    assert(key_count_from(ms, "error"@, 0) == 0);
    assert(key_count_from(ms, "result"@, 0) == 1);
    let res = success_json(r)->Obj_0[2].1->Obj_0;
    assert(key_count_from(res, "greeting"@, 0) == 1);
    assert(unique_str(ms, "id"@) == Some(r.id));
    assert(unique_str(ms, "jsonrpc"@) == Some(r.jsonrpc));
    assert(unique_obj(ms, "result"@) == Some(res));
    assert(unique_str(res, "greeting"@) == Some(r.result.greeting));
}

/// Decoding undoes encoding for an error envelope, at the level of the
/// JSON value it serializes to, for every code in the `i32` range.
pub proof fn lemma_extract_error(e: MethodNotFoundErrorResponseV)
    requires
        -2147483648 <= e.error.code <= 2147483647,
    ensures
        extract_response(error_json(e)) == Some(ResponseV::Error(e)),
{
    reveal_strlit("id");
    reveal_strlit("jsonrpc");
    reveal_strlit("result");
    reveal_strlit("error");
    reveal_strlit("code");
    reveal_strlit("message");
    let ms = error_json(e)->Obj_0;
    reveal_with_fuel(key_count_from, 6);
    reveal_with_fuel(crate::json::lookup_from, 6);
    assert("id"@.len() == 2);
    assert("jsonrpc"@.len() == 7);
    assert("result"@.len() == 6);
    assert("error"@.len() == 5);
    assert("code"@.len() == 4);
    assert("message"@.len() == 7);
    assert(key_count_from(ms, "id"@, 0) == 1);
    assert(key_count_from(ms, "jsonrpc"@, 0) == 1);
    assert(key_count_from(ms, "error"@, 0) == 1);
    let err = error_json(e)->Obj_0[0].1->Obj_0;
    assert(key_count_from(err, "code"@, 0) == 1);
    assert(key_count_from(err, "message"@, 0) == 1);
    assert(unique_str(ms, "id"@) == Some(e.id));
    assert(unique_str(ms, "jsonrpc"@) == Some(e.jsonrpc));
    assert(unique_obj(ms, "error"@) == Some(err));
    assert(unique_num(err, "code"@) == Some(dec_int(e.error.code)));
    assert(unique_str(err, "message"@) == Some(e.error.message));
    lemma_dec_int_round_trip(e.error.code);
}

/// Round trip: encoding a response envelope and then decoding the text
/// reproduces the envelope exactly, for every envelope whose error code
/// fits the wire type. The discriminant survives: a success envelope comes
/// back as a success, an error envelope as an error.
pub proof fn lemma_response_round_trip(r: ResponseV)
    requires
        r matches ResponseV::Error(e) ==> -2147483648 <= e.error.code <= 2147483647,
    ensures
        decode_response_spec(encode_response_spec(r)) == Some(r),
{
    match r {
        ResponseV::Success(s) => {
            lemma_parse_encoded_success(s);
            lemma_extract_success(s);
        },
        ResponseV::Error(e) => {
            lemma_parse_encoded_error(e);
            lemma_extract_error(e);
        },
    }
}

/// What decoding a response body yields: `None` exactly when the text is
/// not valid JSON or not one of the two envelope shapes of
/// [`extract_response`].
pub open spec fn decode_response_spec(t: Seq<char>) -> Option<ResponseV> {
    match parse_text_spec(t) {
        None => None,
        Some(v) => extract_response(v),
    }
}

/// Decode a response body back into the envelope it carries.
pub fn decode_response(s: &str) -> (r: Option<Response>)
    ensures
        (r is None) == (decode_response_spec(s@) is None),
        (r matches Some(resp) ==> decode_response_spec(s@) == Some(resp@)),
{
    match parse_text(s) {
        None => None,
        Some(node) => match node {
            JsonNode::Obj(ms) => {
                let id = match get_unique_str(&ms, &String::from_str("id")) {
                    None => {
                        return None;
                    },
                    Some(t) => t,
                };
                let jsonrpc = match get_unique_str(&ms, &String::from_str("jsonrpc")) {
                    None => {
                        return None;
                    },
                    Some(t) => t,
                };
                if count_key(&ms, &String::from_str("error")) == 0 {
                    let greeting = match get_unique_obj(&ms, &String::from_str("result")) {
                        None => {
                            return None;
                        },
                        Some(res) => match get_unique_str(res, &String::from_str("greeting")) {
                            None => {
                                return None;
                            },
                            Some(t) => t,
                        },
                    };
                    Some(
                        Response::Success(
                            GreetingResponse { id, jsonrpc, result: GreetingResult { greeting } },
                        ),
                    )
                } else {
                    let err = match get_unique_obj(&ms, &String::from_str("error")) {
                        None => {
                            return None;
                        },
                        Some(sub) => sub,
                    };
                    let code = match get_unique_num(err, &String::from_str("code")) {
                        None => {
                            return None;
                        },
                        Some(lex) => match parse_i32_dec(lex.as_str()) {
                            None => {
                                return None;
                            },
                            Some(v) => v,
                        },
                    };
                    let message = match get_unique_str(err, &String::from_str("message")) {
                        None => {
                            return None;
                        },
                        Some(t) => t,
                    };
                    Some(
                        Response::Error(
                            MethodNotFoundErrorResponse {
                                error: MethodNotFoundError { code, message },
                                id,
                                jsonrpc,
                            },
                        ),
                    )
                }
            },
            _ => None,
        },
    }
}

} // verus!
