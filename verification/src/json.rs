//! A JSON reader: the grammar of JSON texts as a functional specification,
//! and an executable parser proved to implement it.
//!
//! The model keeps what the envelope layer reads: string contents are
//! unescaped, object members keep their source order, and a number keeps its
//! lexeme as written, so that nothing of the text is lost or invented.

use vstd::prelude::*;
use vstd::string::StrSliceExecFns;
use crate::strext::char_from_u32;
use crate::strext::push_char;

verus! {

broadcast use vstd::std_specs::vec::axiom_vec_index_decreases, vstd::seq::axiom_seq_index_decreases;

/// A parsed JSON value.
pub enum Json {
    Null,
    Bool(bool),
    /// A number, as its source lexeme.
    Num(Seq<char>),
    /// A string, with escapes decoded.
    Str(Seq<char>),
    Arr(Seq<Json>),
    /// Members in source order, keys as written.
    Obj(Seq<(Seq<char>, Json)>),
}

/// The executable mirror of [`Json`].
pub enum JsonNode {
    Null,
    Bool(bool),
    Num(String),
    Str(String),
    Arr(Vec<JsonNode>),
    Obj(Vec<(String, JsonNode)>),
}

/// The values the nodes of an array stand for.
pub open spec fn elems_view(v: Vec<JsonNode>) -> Seq<Json>
    decreases v,
{
    Seq::new(
        v@.len(),
        |k: int|
            if 0 <= k < v@.len() {
                node_view(v@[k])
            } else {
                Json::Null
            },
    )
}

/// The members the nodes of an object stand for.
pub open spec fn members_view(m: Vec<(String, JsonNode)>) -> Seq<(Seq<char>, Json)>
    decreases m,
{
    Seq::new(
        m@.len(),
        |k: int|
            if 0 <= k < m@.len() {
                (m@[k].0@, node_view(m@[k].1))
            } else {
                (Seq::empty(), Json::Null)
            },
    )
}

/// The value a [`JsonNode`] stands for.
pub open spec fn node_view(n: JsonNode) -> Json
    decreases n,
{
    match n {
        JsonNode::Null => Json::Null,
        JsonNode::Bool(b) => Json::Bool(b),
        JsonNode::Num(s) => Json::Num(s@),
        JsonNode::Str(s) => Json::Str(s@),
        JsonNode::Arr(v) => Json::Arr(elems_view(v)),
        JsonNode::Obj(m) => Json::Obj(members_view(m)),
    }
}

impl View for JsonNode {
    type V = Json;

    open spec fn view(&self) -> Json {
        node_view(*self)
    }
}

/// JSON inter-token white space.
pub open spec fn is_json_ws(c: char) -> bool {
    c == ' ' || c == '\t' || c == '\n' || c == '\r'
}

pub open spec fn is_digit(c: char) -> bool {
    '0' <= c && c <= '9'
}

/// The value of a hexadecimal digit, `-1` for any other character.
pub open spec fn hex_val(c: char) -> int {
    if '0' <= c && c <= '9' {
        c as int - 48
    } else if 'a' <= c && c <= 'f' {
        c as int - 87
    } else if 'A' <= c && c <= 'F' {
        c as int - 55
    } else {
        -1
    }
}

/// The value of the four hexadecimal digits at `i`, `-1` when any is no
/// such digit or the text is too short.
pub open spec fn hex4(s: Seq<char>, i: int) -> int {
    if i < 0 || i + 4 > s.len() {
        -1
    } else if hex_val(s[i]) < 0 || hex_val(s[i + 1]) < 0 || hex_val(s[i + 2]) < 0 || hex_val(
        s[i + 3],
    ) < 0 {
        -1
    } else {
        hex_val(s[i]) * 4096 + hex_val(s[i + 1]) * 256 + hex_val(s[i + 2]) * 16 + hex_val(s[i + 3])
    }
}

/// Prepend a character to the contents of a string-body parse.
pub open spec fn cons_char(c: char, rest: Option<(Seq<char>, int)>) -> Option<(Seq<char>, int)> {
    match rest {
        None => None,
        Some((t, j)) => Some((seq![c] + t, j)),
    }
}

/// Parse the body of a JSON string literal from `i` (just past the opening
/// quote) to its closing quote: the decoded contents and the index after
/// the quote. Escapes are decoded, a surrogate pair in `\u` escapes becomes
/// one character, a lone surrogate or a raw control character fails.
pub open spec fn parse_string_body(s: Seq<char>, i: int) -> Option<(Seq<char>, int)>
    decreases s.len() - i,
{
    if i < 0 || i >= s.len() {
        None
    } else {
        let c = s[i];
        if c == '"' {
            Some((Seq::empty(), i + 1))
        } else if c == '\\' {
            if i + 1 >= s.len() {
                None
            } else {
                let e = s[i + 1];
                if e == '"' || e == '\\' || e == '/' {
                    cons_char(e, parse_string_body(s, i + 2))
                } else if e == 'b' {
                    cons_char(8 as char, parse_string_body(s, i + 2))
                } else if e == 'f' {
                    cons_char(12 as char, parse_string_body(s, i + 2))
                } else if e == 'n' {
                    cons_char('\n', parse_string_body(s, i + 2))
                } else if e == 'r' {
                    cons_char('\r', parse_string_body(s, i + 2))
                } else if e == 't' {
                    cons_char('\t', parse_string_body(s, i + 2))
                } else if e == 'u' {
                    let h = hex4(s, i + 2);
                    if h < 0 {
                        None
                    } else if 0xD800 <= h && h < 0xDC00 {
                        if i + 12 > s.len() {
                            None
                        } else if s[i + 6] == '\\' && s[i + 7] == 'u' {
                            let l = hex4(s, i + 8);
                            if 0xDC00 <= l && l < 0xE000 {
                                let code = 0x10000 + (h - 0xD800) * 0x400 + (l - 0xDC00);
                                cons_char(code as char, parse_string_body(s, i + 12))
                            } else {
                                None
                            }
                        } else {
                            None
                        }
                    } else if 0xDC00 <= h && h < 0xE000 {
                        None
                    } else {
                        cons_char(h as char, parse_string_body(s, i + 6))
                    }
                } else {
                    None
                }
            }
        } else if (c as u32) < 0x20 {
            None
        } else {
            cons_char(c, parse_string_body(s, i + 1))
        }
    }
}

/// The index after the run of decimal digits starting at `i`.
pub open spec fn skip_digits(s: Seq<char>, i: int) -> int
    decreases s.len() - i,
{
    if 0 <= i && i < s.len() && is_digit(s[i]) {
        skip_digits(s, i + 1)
    } else {
        i
    }
}

/// The index after the JSON number starting at `i`: an optional minus sign,
/// an integer part without needless leading zero, an optional fraction, an
/// optional exponent. `None` when no number starts at `i`.
pub open spec fn parse_number_end(s: Seq<char>, i: int) -> Option<int> {
    let i1 = if 0 <= i && i < s.len() && s[i] == '-' {
        i + 1
    } else {
        i
    };
    if !(0 <= i1 && i1 < s.len() && is_digit(s[i1])) {
        None
    } else {
        let i2 = if s[i1] == '0' {
            i1 + 1
        } else {
            skip_digits(s, i1)
        };
        let frac = if i2 < s.len() && s[i2] == '.' {
            if i2 + 1 < s.len() && is_digit(s[i2 + 1]) {
                Some(skip_digits(s, i2 + 1))
            } else {
                None
            }
        } else {
            Some(i2)
        };
        match frac {
            None => None,
            Some(i3) => {
                if i3 < s.len() && (s[i3] == 'e' || s[i3] == 'E') {
                    let i4 = if i3 + 1 < s.len() && (s[i3 + 1] == '+' || s[i3 + 1] == '-') {
                        i3 + 2
                    } else {
                        i3 + 1
                    };
                    if i4 < s.len() && is_digit(s[i4]) {
                        Some(skip_digits(s, i4))
                    } else {
                        None
                    }
                } else {
                    Some(i3)
                }
            },
        }
    }
}

/// Skip white space, then a colon; the index after the colon.
pub open spec fn parse_colon(s: Seq<char>, i: int) -> Option<int>
    decreases s.len() - i,
{
    if i < 0 || i >= s.len() {
        None
    } else if is_json_ws(s[i]) {
        parse_colon(s, i + 1)
    } else if s[i] == ':' {
        Some(i + 1)
    } else {
        None
    }
}

/// Clamp a continuation index into `(i, n]`. Every parse step consumes at
/// least one character, so the clamp never moves a real result; it makes
/// the progress plain where a definition recurses on a computed index.
pub open spec fn advance(i: int, j: int, n: int) -> int {
    if j <= i {
        if i + 1 <= n {
            i + 1
        } else {
            n
        }
    } else if j > n {
        n
    } else {
        j
    }
}

/// Parse a JSON value at `i`, leading white space allowed: the value and
/// the index just after it.
pub open spec fn parse_value(s: Seq<char>, i: int) -> Option<(Json, int)>
    decreases s.len() - i, 0int,
{
    if i < 0 || i >= s.len() {
        None
    } else {
        let c = s[i];
        if is_json_ws(c) {
            parse_value(s, i + 1)
        } else if c == '"' {
            match parse_string_body(s, i + 1) {
                None => None,
                Some((t, j)) => Some((Json::Str(t), j)),
            }
        } else if c == '{' {
            match parse_obj_body(s, i + 1) {
                None => None,
                Some((ms, j)) => Some((Json::Obj(ms), j)),
            }
        } else if c == '[' {
            match parse_arr_body(s, i + 1) {
                None => None,
                Some((es, j)) => Some((Json::Arr(es), j)),
            }
        } else if c == 't' {
            if i + 4 <= s.len() && s[i + 1] == 'r' && s[i + 2] == 'u' && s[i + 3] == 'e' {
                Some((Json::Bool(true), i + 4))
            } else {
                None
            }
        } else if c == 'f' {
            if i + 5 <= s.len() && s[i + 1] == 'a' && s[i + 2] == 'l' && s[i + 3] == 's' && s[i + 4]
                == 'e' {
                Some((Json::Bool(false), i + 5))
            } else {
                None
            }
        } else if c == 'n' {
            if i + 4 <= s.len() && s[i + 1] == 'u' && s[i + 2] == 'l' && s[i + 3] == 'l' {
                Some((Json::Null, i + 4))
            } else {
                None
            }
        } else if c == '-' || is_digit(c) {
            match parse_number_end(s, i) {
                None => None,
                Some(j) => {
                    let jc = advance(i, j, s.len() as int);
                    Some((Json::Num(s.subrange(i, jc)), jc))
                },
            }
        } else {
            None
        }
    }
}

/// Parse the members of an object from just after its `{` to its `}`.
pub open spec fn parse_obj_body(s: Seq<char>, i: int) -> Option<(Seq<(Seq<char>, Json)>, int)>
    decreases s.len() - i, 2int,
{
    if i < 0 || i >= s.len() {
        None
    } else if is_json_ws(s[i]) {
        parse_obj_body(s, i + 1)
    } else if s[i] == '}' {
        Some((Seq::empty(), i + 1))
    } else if s[i] == '"' {
        parse_members(s, i)
    } else {
        None
    }
}

/// Parse one or more `key: value` members, white space allowed before the
/// key, up to and including the closing `}`.
pub open spec fn parse_members(s: Seq<char>, i: int) -> Option<(Seq<(Seq<char>, Json)>, int)>
    decreases s.len() - i, 1int,
{
    if i < 0 || i >= s.len() {
        None
    } else if is_json_ws(s[i]) {
        parse_members(s, i + 1)
    } else if s[i] != '"' {
        None
    } else {
        match parse_string_body(s, i + 1) {
            None => None,
            Some((key, j)) => {
                let j1 = advance(i, j, s.len() as int);
                match parse_colon(s, j1) {
                    None => None,
                    Some(j2) => {
                        let j2c = advance(j1, j2, s.len() as int);
                        match parse_value(s, j2c) {
                            None => None,
                            Some((v, j3)) => {
                                let j3c = advance(j2c, j3, s.len() as int);
                                match parse_obj_tail(s, j3c) {
                                    None => None,
                                    Some((rest, k)) => Some((seq![(key, v)] + rest, k)),
                                }
                            },
                        }
                    },
                }
            },
        }
    }
}

/// After a member: white space, then `}` to close or `,` and further
/// members.
pub open spec fn parse_obj_tail(s: Seq<char>, i: int) -> Option<(Seq<(Seq<char>, Json)>, int)>
    decreases s.len() - i, 3int,
{
    if i < 0 || i >= s.len() {
        None
    } else if is_json_ws(s[i]) {
        parse_obj_tail(s, i + 1)
    } else if s[i] == '}' {
        Some((Seq::empty(), i + 1))
    } else if s[i] == ',' {
        parse_members(s, i + 1)
    } else {
        None
    }
}

/// Parse the elements of an array from just after its `[` to its `]`.
pub open spec fn parse_arr_body(s: Seq<char>, i: int) -> Option<(Seq<Json>, int)>
    decreases s.len() - i, 2int,
{
    if i < 0 || i >= s.len() {
        None
    } else if is_json_ws(s[i]) {
        parse_arr_body(s, i + 1)
    } else if s[i] == ']' {
        Some((Seq::empty(), i + 1))
    } else {
        match parse_value(s, i) {
            None => None,
            Some((v, j)) => {
                let jc = advance(i, j, s.len() as int);
                match parse_arr_tail(s, jc) {
                    None => None,
                    Some((rest, k)) => Some((seq![v] + rest, k)),
                }
            },
        }
    }
}

/// After an element: white space, then `]` to close or `,` and a further
/// element.
pub open spec fn parse_arr_tail(s: Seq<char>, i: int) -> Option<(Seq<Json>, int)>
    decreases s.len() - i, 3int,
{
    if i < 0 || i >= s.len() {
        None
    } else if is_json_ws(s[i]) {
        parse_arr_tail(s, i + 1)
    } else if s[i] == ']' {
        Some((Seq::empty(), i + 1))
    } else if s[i] == ',' {
        match parse_value(s, i + 1) {
            None => None,
            Some((v, j)) => {
                let jc = advance(i + 1, j, s.len() as int);
                match parse_arr_tail(s, jc) {
                    None => None,
                    Some((rest, k)) => Some((seq![v] + rest, k)),
                }
            },
        }
    } else {
        None
    }
}

/// Only white space from `i` to the end of the text.
pub open spec fn ws_only(s: Seq<char>, i: int) -> bool
    decreases s.len() - i,
{
    if i < 0 {
        false
    } else if i >= s.len() {
        true
    } else if is_json_ws(s[i]) {
        ws_only(s, i + 1)
    } else {
        false
    }
}

/// Parse a whole JSON text: one value, with white space around it, and
/// nothing after it.
pub open spec fn parse_text_spec(s: Seq<char>) -> Option<Json> {
    match parse_value(s, 0) {
        None => None,
        Some((v, j)) => if ws_only(s, j) {
            Some(v)
        } else {
            None
        },
    }
}

fn is_ws_char(c: char) -> (r: bool)
    ensures
        r == is_json_ws(c),
{
    c == ' ' || c == '\t' || c == '\n' || c == '\r'
}

fn is_digit_char(c: char) -> (r: bool)
    ensures
        r == is_digit(c),
{
    '0' <= c && c <= '9'
}

fn hex_val_char(c: char) -> (r: i32)
    ensures
        r as int == hex_val(c),
{
    if '0' <= c && c <= '9' {
        (c as u32 as i32) - 48
    } else if 'a' <= c && c <= 'f' {
        (c as u32 as i32) - 87
    } else if 'A' <= c && c <= 'F' {
        (c as u32 as i32) - 55
    } else {
        -1
    }
}

fn hex4_exec(s: &str, n: usize, i: usize) -> (r: i32)
    requires
        n == s@.len(),
        i <= n,
    ensures
        r as int == hex4(s@, i as int),
{
    if n - i < 4 {
        -1
    } else {
        let h0 = hex_val_char(s.get_char(i));
        let h1 = hex_val_char(s.get_char(i + 1));
        let h2 = hex_val_char(s.get_char(i + 2));
        let h3 = hex_val_char(s.get_char(i + 3));
        if h0 < 0 || h1 < 0 || h2 < 0 || h3 < 0 {
            -1
        } else {
            h0 * 4096 + h1 * 256 + h2 * 16 + h3
        }
    }
}

proof fn lemma_char_of_code(c: char, v: int)
    requires
        0 <= v < 0xD800 || 0xE000 <= v <= 0x10FFFF,
        c as int == v,
    ensures
        c == (v as char),
{
}

fn prepend_char(c: char, t: &String) -> (r: String)
    ensures
        r@ == seq![c] + t@,
{
    let mut s = String::new();
    push_char(&mut s, c);
    s.append(t.as_str());
    s
}

fn parse_string_body_exec(s: &str, n: usize, i: usize) -> (r: Option<(String, usize)>)
    requires
        n == s@.len(),
        i <= n,
    ensures
        (r is None) == (parse_string_body(s@, i as int) is None),
        (r matches Some(p) ==> parse_string_body(s@, i as int) == Some((p.0@, p.1 as int)) && i
            < p.1 <= n),
    decreases n - i,
{
    if i >= n {
        return None;
    }
    let c = s.get_char(i);
    if c == '"' {
        Some((String::new(), i + 1))
    } else if c == '\\' {
        if i + 1 >= n {
            return None;
        }
        let e = s.get_char(i + 1);
        if e == '"' || e == '\\' || e == '/' || e == 'b' || e == 'f' || e == 'n' || e == 'r' || e
            == 't' {
            let d = if e == 'b' {
                '\u{8}'
            } else if e == 'f' {
                '\u{c}'
            } else if e == 'n' {
                '\n'
            } else if e == 'r' {
                '\r'
            } else if e == 't' {
                '\t'
            } else {
                e
            };
            match parse_string_body_exec(s, n, i + 2) {
                None => None,
                Some((t, j)) => Some((prepend_char(d, &t), j)),
            }
        } else if e == 'u' {
            let h = hex4_exec(s, n, i + 2);
            if h < 0 {
                None
            } else if 0xD800 <= h && h < 0xDC00 {
                if n - i < 12 {
                    None
                } else if s.get_char(i + 6) == '\\' && s.get_char(i + 7) == 'u' {
                    let l = hex4_exec(s, n, i + 8);
                    if 0xDC00 <= l && l < 0xE000 {
                        let code: u32 = 0x10000 + ((h as u32) - 0xD800) * 0x400 + ((l as u32)
                            - 0xDC00);
                        let d = match char_from_u32(code) {
                            Some(d) => d,
                            None => vstd::pervasive::unreached(),
                        };
                        match parse_string_body_exec(s, n, i + 12) {
                            None => None,
                            Some((t, j)) => {
                                let out = prepend_char(d, &t);
                                proof {
                                    let hs = hex4(s@, i as int + 2);
                                    let ls = hex4(s@, i as int + 8);
                                    let cs = 0x10000 + (hs - 0xD800) * 0x400 + (ls - 0xDC00);
                                    assert(code as int == cs);
                                    assert(d as int == cs);
                                    lemma_char_of_code(d, cs);
                                    assert(parse_string_body(s@, i as int) == Some((out@, j as int)));
                                }
                                Some((out, j))
                            },
                        }
                    } else {
                        None
                    }
                } else {
                    None
                }
            } else if 0xDC00 <= h && h < 0xE000 {
                None
            } else {
                let d = match char_from_u32(h as u32) {
                    Some(d) => d,
                    None => vstd::pervasive::unreached(),
                };
                match parse_string_body_exec(s, n, i + 6) {
                    None => None,
                    Some((t, j)) => {
                        let out = prepend_char(d, &t);
                        proof {
                            let hs = hex4(s@, i as int + 2);
                            assert(d as int == hs);
                            lemma_char_of_code(d, hs);
                            assert(parse_string_body(s@, i as int) == Some((out@, j as int)));
                        }
                        Some((out, j))
                    },
                }
            }
        } else {
            None
        }
    } else if (c as u32) < 0x20 {
        None
    } else {
        match parse_string_body_exec(s, n, i + 1) {
            None => None,
            Some((t, j)) => Some((prepend_char(c, &t), j)),
        }
    }
}

fn skip_digits_exec(s: &str, n: usize, i: usize) -> (j: usize)
    requires
        n == s@.len(),
        i <= n,
    ensures
        j as int == skip_digits(s@, i as int),
        i <= j <= n,
    decreases n - i,
{
    if i < n && is_digit_char(s.get_char(i)) {
        skip_digits_exec(s, n, i + 1)
    } else {
        i
    }
}

fn parse_number_end_exec(s: &str, n: usize, i: usize) -> (r: Option<usize>)
    requires
        n == s@.len(),
        i <= n,
    ensures
        (r is None) == (parse_number_end(s@, i as int) is None),
        (r matches Some(j) ==> parse_number_end(s@, i as int) == Some(j as int) && i < j <= n),
{
    let i1 = if i < n && s.get_char(i) == '-' {
        i + 1
    } else {
        i
    };
    if !(i1 < n && is_digit_char(s.get_char(i1))) {
        return None;
    }
    let i2 = if s.get_char(i1) == '0' {
        i1 + 1
    } else {
        skip_digits_exec(s, n, i1 + 1)
    };
    let frac: Option<usize> = if i2 < n && s.get_char(i2) == '.' {
        if i2 + 1 < n && is_digit_char(s.get_char(i2 + 1)) {
            Some(skip_digits_exec(s, n, i2 + 2))
        } else {
            None
        }
    } else {
        Some(i2)
    };
    match frac {
        None => None,
        Some(i3) => {
            if i3 < n && (s.get_char(i3) == 'e' || s.get_char(i3) == 'E') {
                let i4 = if i3 + 1 < n && (s.get_char(i3 + 1) == '+' || s.get_char(i3 + 1) == '-') {
                    i3 + 2
                } else {
                    i3 + 1
                };
                if i4 < n && is_digit_char(s.get_char(i4)) {
                    Some(skip_digits_exec(s, n, i4 + 1))
                } else {
                    None
                }
            } else {
                Some(i3)
            }
        },
    }
}

fn parse_colon_exec(s: &str, n: usize, i: usize) -> (r: Option<usize>)
    requires
        n == s@.len(),
        i <= n,
    ensures
        (r is None) == (parse_colon(s@, i as int) is None),
        (r matches Some(j) ==> parse_colon(s@, i as int) == Some(j as int) && i < j <= n),
    decreases n - i,
{
    if i >= n {
        None
    } else if is_ws_char(s.get_char(i)) {
        parse_colon_exec(s, n, i + 1)
    } else if s.get_char(i) == ':' {
        Some(i + 1)
    } else {
        None
    }
}

fn ws_only_exec(s: &str, n: usize, i: usize) -> (b: bool)
    requires
        n == s@.len(),
        i <= n,
    ensures
        b == ws_only(s@, i as int),
    decreases n - i,
{
    if i >= n {
        true
    } else if is_ws_char(s.get_char(i)) {
        ws_only_exec(s, n, i + 1)
    } else {
        false
    }
}

fn parse_value_exec(s: &str, n: usize, i: usize) -> (r: Option<(JsonNode, usize)>)
    requires
        n == s@.len(),
        i <= n,
    ensures
        (r is None) == (parse_value(s@, i as int) is None),
        (r matches Some(p) ==> parse_value(s@, i as int) == Some((node_view(p.0), p.1 as int)) && i
            < p.1 <= n),
    decreases n - i, 0int,
{
    if i >= n {
        return None;
    }
    let c = s.get_char(i);
    if is_ws_char(c) {
        parse_value_exec(s, n, i + 1)
    } else if c == '"' {
        match parse_string_body_exec(s, n, i + 1) {
            None => None,
            Some((t, j)) => Some((JsonNode::Str(t), j)),
        }
    } else if c == '{' {
        match parse_obj_body_exec(s, n, i + 1) {
            None => None,
            Some((ms, j)) => Some((JsonNode::Obj(ms), j)),
        }
    } else if c == '[' {
        match parse_arr_body_exec(s, n, i + 1) {
            None => None,
            Some((es, j)) => Some((JsonNode::Arr(es), j)),
        }
    } else if c == 't' {
        if n - i >= 4 && s.get_char(i + 1) == 'r' && s.get_char(i + 2) == 'u' && s.get_char(i + 3)
            == 'e' {
            Some((JsonNode::Bool(true), i + 4))
        } else {
            None
        }
    } else if c == 'f' {
        if n - i >= 5 && s.get_char(i + 1) == 'a' && s.get_char(i + 2) == 'l' && s.get_char(i + 3)
            == 's' && s.get_char(i + 4) == 'e' {
            Some((JsonNode::Bool(false), i + 5))
        } else {
            None
        }
    } else if c == 'n' {
        if n - i >= 4 && s.get_char(i + 1) == 'u' && s.get_char(i + 2) == 'l' && s.get_char(i + 3)
            == 'l' {
            Some((JsonNode::Null, i + 4))
        } else {
            None
        }
    } else if c == '-' || is_digit_char(c) {
        match parse_number_end_exec(s, n, i) {
            None => None,
            Some(j) => {
                proof {
                    assert(advance(i as int, j as int, s@.len() as int) == j as int);
                }
                let lexeme = String::from_str(s.substring_char(i, j));
                Some((JsonNode::Num(lexeme), j))
            },
        }
    } else {
        None
    }
}

fn parse_obj_body_exec(s: &str, n: usize, i: usize) -> (r: Option<(Vec<(String, JsonNode)>, usize)>)
    requires
        n == s@.len(),
        i <= n,
    ensures
        (r is None) == (parse_obj_body(s@, i as int) is None),
        (r matches Some(p) ==> parse_obj_body(s@, i as int) == Some((members_view(p.0), p.1 as int))
            && i < p.1 <= n),
    decreases n - i, 2int,
{
    if i >= n {
        None
    } else if is_ws_char(s.get_char(i)) {
        parse_obj_body_exec(s, n, i + 1)
    } else if s.get_char(i) == '}' {
        let ms: Vec<(String, JsonNode)> = Vec::new();
        proof {
            assert(members_view(ms) =~= Seq::<(Seq<char>, Json)>::empty());
        }
        Some((ms, i + 1))
    } else if s.get_char(i) == '"' {
        parse_members_exec(s, n, i)
    } else {
        None
    }
}

fn parse_members_exec(s: &str, n: usize, i: usize) -> (r: Option<(Vec<(String, JsonNode)>, usize)>)
    requires
        n == s@.len(),
        i <= n,
    ensures
        (r is None) == (parse_members(s@, i as int) is None),
        (r matches Some(p) ==> parse_members(s@, i as int) == Some((members_view(p.0), p.1 as int))
            && i < p.1 <= n),
    decreases n - i, 1int,
{
    if i >= n {
        return None;
    }
    if is_ws_char(s.get_char(i)) {
        return parse_members_exec(s, n, i + 1);
    }
    if s.get_char(i) != '"' {
        return None;
    }
    match parse_string_body_exec(s, n, i + 1) {
        None => None,
        Some((key, j1)) => {
            proof {
                assert(advance(i as int, j1 as int, s@.len() as int) == j1 as int);
            }
            match parse_colon_exec(s, n, j1) {
                None => None,
                Some(j2) => {
                    proof {
                        assert(advance(j1 as int, j2 as int, s@.len() as int) == j2 as int);
                    }
                    match parse_value_exec(s, n, j2) {
                        None => None,
                        Some((v, j3)) => {
                            proof {
                                assert(advance(j2 as int, j3 as int, s@.len() as int) == j3 as int);
                            }
                            match parse_obj_tail_exec(s, n, j3) {
                                None => None,
                                Some((mut rest, k)) => {
                                    let ghost old_rest = rest;
                                    rest.insert(0, (key, v));
                                    proof {
                                        assert(members_view(rest) =~= seq![(key@, node_view(v))]
                                            + members_view(old_rest));
                                    }
                                    Some((rest, k))
                                },
                            }
                        },
                    }
                },
            }
        },
    }
}

fn parse_obj_tail_exec(s: &str, n: usize, i: usize) -> (r: Option<(Vec<(String, JsonNode)>, usize)>)
    requires
        n == s@.len(),
        i <= n,
    ensures
        (r is None) == (parse_obj_tail(s@, i as int) is None),
        (r matches Some(p) ==> parse_obj_tail(s@, i as int) == Some((members_view(p.0), p.1 as int))
            && i < p.1 <= n),
    decreases n - i, 3int,
{
    if i >= n {
        None
    } else if is_ws_char(s.get_char(i)) {
        parse_obj_tail_exec(s, n, i + 1)
    } else if s.get_char(i) == '}' {
        let ms: Vec<(String, JsonNode)> = Vec::new();
        proof {
            assert(members_view(ms) =~= Seq::<(Seq<char>, Json)>::empty());
        }
        Some((ms, i + 1))
    } else if s.get_char(i) == ',' {
        parse_members_exec(s, n, i + 1)
    } else {
        None
    }
}

fn parse_arr_body_exec(s: &str, n: usize, i: usize) -> (r: Option<(Vec<JsonNode>, usize)>)
    requires
        n == s@.len(),
        i <= n,
    ensures
        (r is None) == (parse_arr_body(s@, i as int) is None),
        (r matches Some(p) ==> parse_arr_body(s@, i as int) == Some((elems_view(p.0), p.1 as int))
            && i < p.1 <= n),
    decreases n - i, 2int,
{
    if i >= n {
        None
    } else if is_ws_char(s.get_char(i)) {
        parse_arr_body_exec(s, n, i + 1)
    } else if s.get_char(i) == ']' {
        let es: Vec<JsonNode> = Vec::new();
        proof {
            assert(elems_view(es) =~= Seq::<Json>::empty());
        }
        Some((es, i + 1))
    } else {
        match parse_value_exec(s, n, i) {
            None => None,
            Some((v, j)) => {
                proof {
                    assert(advance(i as int, j as int, s@.len() as int) == j as int);
                }
                match parse_arr_tail_exec(s, n, j) {
                    None => None,
                    Some((mut rest, k)) => {
                        let ghost old_rest = rest;
                        rest.insert(0, v);
                        proof {
                            assert(elems_view(rest) =~= seq![node_view(v)] + elems_view(old_rest));
                        }
                        Some((rest, k))
                    },
                }
            },
        }
    }
}

fn parse_arr_tail_exec(s: &str, n: usize, i: usize) -> (r: Option<(Vec<JsonNode>, usize)>)
    requires
        n == s@.len(),
        i <= n,
    ensures
        (r is None) == (parse_arr_tail(s@, i as int) is None),
        (r matches Some(p) ==> parse_arr_tail(s@, i as int) == Some((elems_view(p.0), p.1 as int))
            && i < p.1 <= n),
    decreases n - i, 3int,
{
    if i >= n {
        None
    } else if is_ws_char(s.get_char(i)) {
        parse_arr_tail_exec(s, n, i + 1)
    } else if s.get_char(i) == ']' {
        let es: Vec<JsonNode> = Vec::new();
        proof {
            assert(elems_view(es) =~= Seq::<Json>::empty());
        }
        Some((es, i + 1))
    } else if s.get_char(i) == ',' {
        match parse_value_exec(s, n, i + 1) {
            None => None,
            Some((v, j)) => {
                proof {
                    assert(advance(i as int + 1, j as int, s@.len() as int) == j as int);
                }
                match parse_arr_tail_exec(s, n, j) {
                    None => None,
                    Some((mut rest, k)) => {
                        let ghost old_rest = rest;
                        rest.insert(0, v);
                        proof {
                            assert(elems_view(rest) =~= seq![node_view(v)] + elems_view(old_rest));
                        }
                        Some((rest, k))
                    },
                }
            },
        }
    } else {
        None
    }
}

/// How often `key` occurs among the members of an object, from `i` on.
pub open spec fn key_count_from(ms: Seq<(Seq<char>, Json)>, key: Seq<char>, i: int) -> nat
    decreases ms.len() - i,
{
    if i < 0 || i >= ms.len() {
        0
    } else if ms[i].0 == key {
        1 + key_count_from(ms, key, i + 1)
    } else {
        key_count_from(ms, key, i + 1)
    }
}

/// The value of the first member named `key`, from `i` on.
pub open spec fn lookup_from(ms: Seq<(Seq<char>, Json)>, key: Seq<char>, i: int) -> Option<Json>
    decreases ms.len() - i,
{
    if i < 0 || i >= ms.len() {
        None
    } else if ms[i].0 == key {
        Some(ms[i].1)
    } else {
        lookup_from(ms, key, i + 1)
    }
}

/// The string value of `key`, provided the object holds `key` exactly once
/// and its value is a string — what a record decoder accepts for a string
/// field.
pub open spec fn unique_str(ms: Seq<(Seq<char>, Json)>, key: Seq<char>) -> Option<Seq<char>> {
    if key_count_from(ms, key, 0) == 1 {
        match lookup_from(ms, key, 0) {
            Some(Json::Str(t)) => Some(t),
            _ => None,
        }
    } else {
        None
    }
}

/// The object value of `key`, provided the object holds `key` exactly once
/// and its value is an object.
pub open spec fn unique_obj(ms: Seq<(Seq<char>, Json)>, key: Seq<char>) -> Option<
    Seq<(Seq<char>, Json)>,
> {
    if key_count_from(ms, key, 0) == 1 {
        match lookup_from(ms, key, 0) {
            Some(Json::Obj(sub)) => Some(sub),
            _ => None,
        }
    } else {
        None
    }
}

/// The number lexeme of `key`, provided the object holds `key` exactly once
/// and its value is a number.
pub open spec fn unique_num(ms: Seq<(Seq<char>, Json)>, key: Seq<char>) -> Option<Seq<char>> {
    if key_count_from(ms, key, 0) == 1 {
        match lookup_from(ms, key, 0) {
            Some(Json::Num(t)) => Some(t),
            _ => None,
        }
    } else {
        None
    }
}

fn count_key_from(ms: &Vec<(String, JsonNode)>, key: &String, i: usize) -> (c: usize)
    requires
        i <= ms@.len(),
    ensures
        c as nat == key_count_from(members_view(*ms), key@, i as int),
        c as int <= ms@.len() - i,
    decreases ms@.len() - i,
{
    if i >= ms.len() {
        0
    } else {
        let rest = count_key_from(ms, key, i + 1);
        if ms[i].0 == *key {
            rest + 1
        } else {
            rest
        }
    }
}

fn get_field_from<'a>(ms: &'a Vec<(String, JsonNode)>, key: &String, i: usize) -> (r: Option<
    &'a JsonNode,
>)
    requires
        i <= ms@.len(),
    ensures
        (r is None) == (lookup_from(members_view(*ms), key@, i as int) is None),
        (r matches Some(node) ==> lookup_from(members_view(*ms), key@, i as int) == Some(
            node_view(*node),
        )),
    decreases ms@.len() - i,
{
    if i >= ms.len() {
        None
    } else if ms[i].0 == *key {
        Some(&ms[i].1)
    } else {
        get_field_from(ms, key, i + 1)
    }
}

/// How often `key` occurs among the members of an object.
pub fn count_key(ms: &Vec<(String, JsonNode)>, key: &String) -> (c: usize)
    ensures
        c as nat == key_count_from(members_view(*ms), key@, 0),
{
    count_key_from(ms, key, 0)
}

/// The string field `key` of an object, under the same conditions as
/// [`unique_str`].
pub fn get_unique_str(ms: &Vec<(String, JsonNode)>, key: &String) -> (r: Option<String>)
    ensures
        (r is None) == (unique_str(members_view(*ms), key@) is None),
        (r matches Some(t) ==> unique_str(members_view(*ms), key@) == Some(t@)),
{
    let c = count_key_from(ms, key, 0);
    if c != 1 {
        None
    } else {
        match get_field_from(ms, key, 0) {
            None => None,
            Some(node) => match node {
                JsonNode::Str(t) => Some(t.clone()),
                _ => None,
            },
        }
    }
}

/// The object field `key` of an object, under the same conditions as
/// [`unique_obj`].
pub fn get_unique_obj<'a>(ms: &'a Vec<(String, JsonNode)>, key: &String) -> (r: Option<
    &'a Vec<(String, JsonNode)>,
>)
    ensures
        (r is None) == (unique_obj(members_view(*ms), key@) is None),
        (r matches Some(sub) ==> unique_obj(members_view(*ms), key@) == Some(members_view(*sub))),
{
    let c = count_key_from(ms, key, 0);
    if c != 1 {
        None
    } else {
        match get_field_from(ms, key, 0) {
            None => None,
            Some(node) => match node {
                JsonNode::Obj(sub) => Some(sub),
                _ => None,
            },
        }
    }
}

/// The number lexeme of field `key` of an object, under the same conditions
/// as [`unique_num`].
pub fn get_unique_num(ms: &Vec<(String, JsonNode)>, key: &String) -> (r: Option<String>)
    ensures
        (r is None) == (unique_num(members_view(*ms), key@) is None),
        (r matches Some(t) ==> unique_num(members_view(*ms), key@) == Some(t@)),
{
    let c = count_key_from(ms, key, 0);
    if c != 1 {
        None
    } else {
        match get_field_from(ms, key, 0) {
            None => None,
            Some(node) => match node {
                JsonNode::Num(t) => Some(t.clone()),
                _ => None,
            },
        }
    }
}

/// Parse a whole JSON text: one value with optional surrounding white
/// space, or `None` when the text is not valid JSON.
pub fn parse_text(s: &str) -> (r: Option<JsonNode>)
    ensures
        (r is None) == (parse_text_spec(s@) is None),
        (r matches Some(node) ==> parse_text_spec(s@) == Some(node_view(node))),
{
    let n: usize = s.unicode_len();
    match parse_value_exec(s, n, 0) {
        None => None,
        Some((v, j)) => {
            if ws_only_exec(s, n, j) {
                Some(v)
            } else {
                None
            }
        },
    }
}

} // verus!
