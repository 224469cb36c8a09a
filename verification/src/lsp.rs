//! Reading LSP-shaped input: `file://` URIs with percent escapes, severities,
//! diagnostic codes, and the location and diagnostic records the formatting
//! tools accept (compact 1-based `{file,line,col}` or LSP 0-based ranges).

use vstd::prelude::*;
use vstd::string::{StringExecFns, StringSliceAdditionalSpecFns};
use crate::error::{ToolError, ToolErrorKind};
use crate::text::{ascii_lower, ascii_lower_chars, chars_of, decimal, push_char, str_eq, string_from_chars, has_prefix};
use crate::value::{Json, json_get, json_str, json_u64, opt_str, opt_u64, get, as_str, as_u64};

verus! {

/// The value of a hexadecimal digit.
pub open spec fn hex_value(b: u8) -> Option<nat> {
    if 48 <= b <= 57 {
        Some((b - 48) as nat)
    } else if 97 <= b <= 102 {
        Some((b - 87) as nat)
    } else if 65 <= b <= 70 {
        Some((b - 55) as nat)
    } else {
        None
    }
}

/// What `u8::from_str_radix(_, 16)` gives for the two bytes after a `%`
/// (they must also read as UTF-8, which two such bytes do): two hex digits,
/// or a `+` sign and one digit.
pub open spec fn escape_value(a: u8, b: u8) -> Option<nat> {
    match (hex_value(a), hex_value(b)) {
        (Some(x), Some(y)) => Some(16 * x + y),
        (None, Some(y)) => if a == 43 { Some(y) } else { None },
        _ => None,
    }
}

/// Percent-decoding of `bytes` from `i` on, as bytes: `%XY` becomes the
/// byte it names, every other byte stays.
pub open spec fn percent_bytes(bytes: Seq<u8>, i: int) -> Seq<u8>
    decreases bytes.len() - i,
{
    if i < 0 || i >= bytes.len() {
        seq![]
    } else if bytes[i] == 37 && i + 2 < bytes.len() && escape_value(bytes[i + 1], bytes[i + 2]) is Some {
        seq![escape_value(bytes[i + 1], bytes[i + 2])->0 as u8] + percent_bytes(bytes, i + 3)
    } else {
        seq![bytes[i]] + percent_bytes(bytes, i + 1)
    }
}

/// The text `String::from_utf8_lossy` reads from `bytes`: each well-formed
/// UTF-8 sequence as its character, each ill-formed part as U+FFFD.
pub uninterp spec fn utf8_lossy(bytes: Seq<u8>) -> Seq<char>;

/// Reads bytes as UTF-8 text.
///
/// Wraps `String::from_utf8_lossy`; the result depends on the bytes alone,
/// so the contract names it `utf8_lossy`, and, as std documents, valid
/// UTF-8 is read exactly.
#[verifier::external_body]
fn text_of_bytes(bytes: &Vec<u8>) -> (r: String)
    ensures
        r@ == utf8_lossy(bytes@),
        vstd::utf8::valid_utf8(bytes@) ==> r@ == vstd::utf8::decode_utf8(bytes@),
{
    String::from_utf8_lossy(bytes.as_slice()).into_owned()
}

/// Percent-decoding of a URI path: the escapes turned into the bytes they
/// name, and the bytes read as UTF-8 (file URIs escape UTF-8 octets).
pub open spec fn percent_decoded(bytes: Seq<u8>) -> Seq<char> {
    utf8_lossy(percent_bytes(bytes, 0))
}

/// The value of one hexadecimal digit byte.
fn hex_digit_value(b: u8) -> (r: Option<u8>)
    ensures
        match hex_value(b) {
            Some(v) => r == Some(v as u8),
            None => r is None,
        },
{
    if 48 <= b && b <= 57 {
        Some(b - 48)
    } else if 97 <= b && b <= 102 {
        Some(b - 87)
    } else if 65 <= b && b <= 70 {
        Some(b - 55)
    } else {
        None
    }
}

/// Decodes `%XY` escapes into bytes and reads the result as UTF-8.
pub fn percent_decode(input: &str) -> (r: String)
    ensures
        r@ == percent_decoded(input.spec_bytes()),
        vstd::utf8::valid_utf8(percent_bytes(input.spec_bytes(), 0)) ==> r@ == vstd::utf8::decode_utf8(percent_bytes(input.spec_bytes(), 0)),
{
    let bytes = input.as_bytes();
    let ghost bs = input.spec_bytes();
    let mut out: Vec<u8> = Vec::new();
    let mut index: usize = 0;
    while index < bytes.len()
        invariant
            bytes@ == bs,
            index <= bytes.len(),
            out@ + percent_bytes(bs, index as int) == percent_bytes(bs, 0),
        decreases bytes.len() - index,
    {
        let ghost before = out@;
        if bytes[index] == 37u8 && bytes.len() - index > 2 {
            let a = hex_digit_value(bytes[index + 1]);
            let b = hex_digit_value(bytes[index + 2]);
            let value: Option<u8> = match (a, b) {
                (Some(x), Some(y)) => Some(16 * x + y),
                (None, Some(y)) => if bytes[index + 1] == 43u8 { Some(y) } else { None },
                _ => None,
            };
            match value {
                Some(v) => {
                    out.push(v);
                    proof {
                        assert(escape_value(bs[index + 1], bs[index + 2]) == Some(v as nat));
                        assert(out@ + percent_bytes(bs, index + 3) =~= before + percent_bytes(bs, index as int));
                    }
                    index += 3;
                    continue;
                },
                None => {},
            }
        }
        out.push(bytes[index]);
        proof {
            assert(out@ + percent_bytes(bs, index + 1) =~= before + percent_bytes(bs, index as int));
        }
        index += 1;
    }
    proof {
        assert(out@ + percent_bytes(bs, index as int) =~= out@);
    }
    text_of_bytes(&out)
}

/// The characters of `s` from position `n` on, as a new string.
fn suffix_string(s: &Vec<char>, n: usize) -> (r: String)
    requires
        n <= s.len(),
    ensures
        r@ == s@.skip(n as int),
{
    let mut out = String::new();
    let mut i: usize = n;
    while i < s.len()
        invariant
            n <= i <= s.len(),
            out@ == s@.subrange(n as int, i as int),
        decreases s.len() - i,
    {
        push_char(&mut out, s[i]);
        proof {
            assert(s@.subrange(n as int, i + 1) =~= s@.subrange(n as int, i as int).push(s@[i as int]));
        }
        i += 1;
    }
    proof {
        assert(s@.subrange(n as int, s.len() as int) =~= s@.skip(n as int));
    }
    out
}

/// The path a `file://` URI names: the scheme dropped, an optional
/// `localhost` host dropped, the rest percent-decoded.
pub open spec fn uri_path(uri: Seq<char>) -> Option<Seq<char>> {
    if has_prefix(uri, "file://"@) {
        let rest = uri.skip(7);
        let path = if has_prefix(rest, "localhost"@) { rest.skip(9) } else { rest };
        Some(percent_decoded(crate::lsp::utf8_of(path)))
    } else {
        None
    }
}

/// The UTF-8 bytes of a character sequence.
pub open spec fn utf8_of(s: Seq<char>) -> Seq<u8> {
    vstd::utf8::encode_utf8(s)
}

/// The path a `file://` URI names, if it is one.
pub fn file_path_from_uri(uri: &str) -> (r: Option<String>)
    ensures
        match uri_path(uri@) {
            Some(p) => r matches Some(s) && s@ == p,
            None => r is None,
        },
{
    proof {
        reveal_strlit("file://");
        reveal_strlit("localhost");
    }
    if !crate::text::str_starts_with(uri, "file://") {
        return None;
    }
    let cs = chars_of(uri);
    let rest = suffix_string(&cs, 7);
    let path = if crate::text::str_starts_with(rest.as_str(), "localhost") {
        let rc = chars_of(rest.as_str());
        suffix_string(&rc, 9)
    } else {
        rest
    };
    Some(percent_decode(path.as_str()))
}

/// The severity label of an LSP severity value: the names of 1 to 4, other
/// integers as digits, strings in ASCII lowercase, anything else `unknown`.
pub open spec fn severity_label(v: Option<Json>) -> Seq<char> {
    match v {
        Some(Json::Number(n)) => match n.unsigned {
            Some(x) => if x == 1 {
                "error"@
            } else if x == 2 {
                "warning"@
            } else if x == 3 {
                "info"@
            } else if x == 4 {
                "hint"@
            } else {
                decimal(x as nat)
            },
            None => "unknown"@,
        },
        Some(Json::Str(label)) => ascii_lower(label@),
        _ => "unknown"@,
    }
}

/// The decimal digits of a 64-bit number.
fn u64_string(x: u64) -> (s: String)
    ensures
        s@ == decimal(x as nat),
    decreases x,
{
    let mut s = if x >= 10 { u64_string(x / 10) } else { String::new() };
    let d: u8 = (x % 10) as u8;
    push_char(&mut s, (48u8 + d) as char);
    proof {
        if x < 10 {
            assert(s@ =~= decimal(x as nat));
        } else {
            assert(s@ =~= decimal(x as nat));
        }
    }
    s
}

/// Reads an LSP severity.
pub fn parse_severity(v: Option<&Json>) -> (r: String)
    ensures
        r@ == severity_label(match v { Some(x) => Some(*x), None => None }),
{
    match v {
        Some(Json::Number(n)) => match n.unsigned {
            Some(1) => String::from_str("error"),
            Some(2) => String::from_str("warning"),
            Some(3) => String::from_str("info"),
            Some(4) => String::from_str("hint"),
            Some(x) => u64_string(x),
            None => String::from_str("unknown"),
        },
        Some(Json::Str(label)) => {
            let cs = chars_of(label.as_str());
            let lower = ascii_lower_chars(&cs);
            string_from_chars(&lower)
        },
        _ => String::from_str("unknown"),
    }
}

/// The code of a diagnostic: a string as is, a number as its text, the
/// string `value` of an object, else empty.
pub open spec fn code_label(v: Option<Json>) -> Seq<char> {
    match v {
        Some(Json::Str(code)) => code@,
        Some(Json::Number(n)) => n.text@,
        Some(Json::Object(members)) => match opt_str(json_get(Json::Object(members), "value"@)) {
            Some(s) => s,
            None => seq![],
        },
        _ => seq![],
    }
}

/// Reads a diagnostic code.
pub fn diagnostic_code(v: Option<&Json>) -> (r: String)
    ensures
        r@ == code_label(match v { Some(x) => Some(*x), None => None }),
{
    proof {
        reveal_strlit("value");
        reveal_strlit("");
    }
    match v {
        Some(Json::Str(code)) => code.clone(),
        Some(Json::Number(n)) => n.text.clone(),
        Some(x) => match x {
            Json::Object(_) => match as_str(get(x, "value")) {
                Some(s) => String::from_str(s),
                None => String::new(),
            },
            _ => String::new(),
        },
        None => String::new(),
    }
}

} // verus!
