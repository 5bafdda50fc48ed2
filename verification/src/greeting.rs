//! The one registered business method: normalize a name and build a greeting.

use vstd::prelude::*;
use vstd::string::StrSliceExecFns;
use vstd::string::StringExecFns;

verus! {

/// A character that name normalization strips at either end: the Unicode
/// `White_Space` set, the same set `char::is_whitespace` recognizes.
pub open spec fn is_space(c: char) -> bool {
    let u = c as u32;
    ||| u == 0x09
    ||| u == 0x0A
    ||| u == 0x0B
    ||| u == 0x0C
    ||| u == 0x0D
    ||| u == 0x20
    ||| u == 0x85
    ||| u == 0xA0
    ||| u == 0x1680
    ||| (0x2000 <= u && u <= 0x200A)
    ||| u == 0x2028
    ||| u == 0x2029
    ||| u == 0x202F
    ||| u == 0x205F
    ||| u == 0x3000
}

/// `s` with every leading and trailing white-space character removed.
pub open spec fn trim_spec(s: Seq<char>) -> Seq<char>
    decreases s.len(),
{
    if s.len() == 0 {
        s
    } else if is_space(s[0]) {
        trim_spec(s.drop_first())
    } else if is_space(s[s.len() - 1]) {
        trim_spec(s.drop_last())
    } else {
        s
    }
}

/// The subject of the greeting: the trimmed name, or `"World"` when nothing
/// of the name survives trimming.
pub open spec fn normalized_name(s: Seq<char>) -> Seq<char> {
    if trim_spec(s).len() == 0 {
        "World"@
    } else {
        trim_spec(s)
    }
}

/// The full greeting text for a raw (untrimmed) name.
pub open spec fn greeting_of(name: Seq<char>) -> Seq<char> {
    "Hello, "@ + normalized_name(name) + "!"@
}

fn is_space_char(c: char) -> (r: bool)
    ensures
        r == is_space(c),
{
    let u = c as u32;
    u == 0x09 || u == 0x0A || u == 0x0B || u == 0x0C || u == 0x0D || u == 0x20 || u == 0x85
        || u == 0xA0 || u == 0x1680 || (0x2000 <= u && u <= 0x200A) || u == 0x2028 || u == 0x2029
        || u == 0x202F || u == 0x205F || u == 0x3000
}

/// Remove leading and trailing white space from a string.
pub fn trim(s: &str) -> (r: String)
    ensures
        r@ == trim_spec(s@),
    decreases s@.len(),
{
    let n: usize = s.unicode_len();
    if n == 0 {
        String::from_str(s)
    } else if is_space_char(s.get_char(0)) {
        let rest = s.substring_char(1, n);
        proof {
            assert(rest@ =~= s@.drop_first());
        }
        trim(rest)
    } else if is_space_char(s.get_char(n - 1)) {
        let rest = s.substring_char(0, n - 1);
        proof {
            assert(rest@ =~= s@.drop_last());
        }
        trim(rest)
    } else {
        String::from_str(s)
    }
}

/// Build the greeting for a raw name: trim it, substitute `"World"` when the
/// trimmed name is empty, and wrap the subject in `"Hello, ...!"`.
pub fn greet(name: &str) -> (g: String)
    ensures
        g@ == greeting_of(name@),
{
    let t = trim(name);
    let mut out = String::from_str("Hello, ");
    if t.as_str().is_empty() {
        out.append("World");
    } else {
        out.append(t.as_str());
    }
    out.append("!");
    proof {
        assert(out@ =~= greeting_of(name@));
    }
    out
}

} // verus!
