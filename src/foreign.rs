//! The calls that validation makes into other crates, each with what this
//! library relies on it for.
use vstd::prelude::*;

verus! {

/// Whether a text is a date-time in RFC 3339 form, as chrono parses it.
pub uninterp spec fn rfc3339_date(s: Seq<char>) -> bool;

/// Whether a text is a URI reference, as uriparse parses it.
pub uninterp spec fn uri_reference(s: Seq<char>) -> bool;

/// What the regex crate says of a pattern and a text: `None` when the
/// pattern does not compile, else whether it matches somewhere in the text.
pub uninterp spec fn regex_verdict(pattern: Seq<char>, text: Seq<char>) -> Option<bool>;

/// The bytes that base64 (URL-safe alphabet) decodes a text to, `None` when
/// the text is not valid base64.
pub uninterp spec fn b64url_decoded(s: Seq<u8>) -> Option<Seq<u8>>;

/// The base64 (URL-safe alphabet, padded) text of some bytes.
pub uninterp spec fn b64url_encoded(b: Seq<u8>) -> Seq<u8>;

/// The value of one hex digit, either case.
pub open spec fn hex_digit(b: u8) -> Option<u8> {
    if 48 <= b <= 57 {
        Some((b - 48) as u8)
    } else if 97 <= b <= 102 {
        Some((b - 87) as u8)
    } else if 65 <= b <= 70 {
        Some((b - 55) as u8)
    } else {
        None
    }
}

/// The bytes that a text of hex digit pairs stands for.
pub open spec fn hex_decoded(s: Seq<u8>) -> Option<Seq<u8>> {
    if s.len() % 2 == 0 && forall|i: int| 0 <= i < s.len() ==> (#[trigger] hex_digit(s[i])) is Some {
        Some(
            Seq::new(
                (s.len() / 2) as nat,
                |k: int| (hex_digit(s[2 * k])->0 * 16 + hex_digit(s[2 * k + 1])->0) as u8,
            ),
        )
    } else {
        None
    }
}

/// The characters that have a meaning of their own in a regular expression.
pub open spec fn is_meta(c: char) -> bool {
    ||| c == '\\'
    ||| c == '.'
    ||| c == '+'
    ||| c == '*'
    ||| c == '?'
    ||| c == '('
    ||| c == ')'
    ||| c == '|'
    ||| c == '['
    ||| c == ']'
    ||| c == '{'
    ||| c == '}'
    ||| c == '^'
    ||| c == '$'
    ||| c == '#'
    ||| c == '&'
    ||| c == '-'
    ||| c == '~'
}

/// Relies on chrono's `DateTime::parse_from_rfc3339`: whether it parses the
/// text, which depends on the text alone.
#[verifier::external_body]
pub(crate) fn parses_as_rfc3339(s: &str) -> (r: bool)
    ensures
        r == rfc3339_date(s@),
{
    chrono::DateTime::parse_from_rfc3339(s).is_ok()
}

/// Relies on uriparse's `URIReference::try_from(&str)`: whether it parses the
/// text, which depends on the text alone.
#[verifier::external_body]
pub(crate) fn parses_as_uri_reference(s: &str) -> (r: bool)
    ensures
        r == uri_reference(s@),
{
    uriparse::uri_reference::URIReference::try_from(s).is_ok()
}

/// Relies on regex's `Regex::new` and `Regex::is_match`: whether the pattern
/// compiles, and if so whether it matches the text.
#[verifier::external_body]
pub(crate) fn regex_match(pattern: &str, text: &str) -> (r: Option<bool>)
    ensures
        r == regex_verdict(pattern@, text@),
{
    match regex::Regex::new(pattern) {
        Ok(re) => Some(re.is_match(text)),
        Err(_) => None,
    }
}

/// Relies on regex-syntax's `is_meta_character`: true exactly for the
/// characters `\ . + * ? ( ) | [ ] { } ^ $ # & - ~`.
#[verifier::external_body]
pub(crate) fn is_meta_character(c: char) -> (r: bool)
    ensures
        r == is_meta(c),
{
    regex_syntax::is_meta_character(c)
}

/// Relies on base16's `decode`: an error for an odd length or a byte that is
/// not a hex digit, else each pair of digits as one byte.
#[verifier::external_body]
pub(crate) fn decode_hex(b: &[u8]) -> (r: Option<Vec<u8>>)
    ensures
        r is None <==> hex_decoded(b@) is None,
        r matches Some(x) ==> hex_decoded(b@) == Some(x@),
{
    base16::decode(b).ok()
}

/// The lower-case hex digit of a value below 16.
pub open spec fn lower_digit(d: int) -> u8 {
    if d < 10 {
        (48 + d) as u8
    } else {
        (87 + d) as u8
    }
}

/// Two lower-case hex digits per byte, the high nibble first.
pub open spec fn hex_lower(b: Seq<u8>) -> Seq<u8> {
    Seq::new(
        2 * b.len(),
        |i: int|
            if i % 2 == 0 {
                lower_digit(b[i / 2] as int / 16)
            } else {
                lower_digit(b[i / 2] as int % 16)
            },
    )
}

/// The bytes of a text in UTF-8.
pub uninterp spec fn utf8_of(s: Seq<char>) -> Seq<u8>;

/// The text that bytes stand for in UTF-8, `None` when they are not UTF-8.
pub uninterp spec fn utf8_decoded(b: Seq<u8>) -> Option<Seq<char>>;

/// Relies on base16's `encode_lower`: two lower-case hex digits per byte,
/// high nibble first (it panics only when the length cannot be doubled).
#[verifier::external_body]
pub(crate) fn encode_hex(b: &[u8]) -> (r: Vec<u8>)
    requires
        b@.len() <= usize::MAX / 2,
    ensures
        r@ == hex_lower(b@),
{
    base16::encode_lower(b).into_bytes()
}

/// Relies on base64's `decode_config` with the URL-safe configuration (it
/// panics only when the length plus three overflows).
#[verifier::external_body]
pub(crate) fn decode_b64url(b: &[u8]) -> (r: Option<Vec<u8>>)
    requires
        b@.len() <= usize::MAX - 3,
    ensures
        r is None <==> b64url_decoded(b@) is None,
        r matches Some(x) ==> b64url_decoded(b@) == Some(x@),
{
    base64::decode_config(b, base64::URL_SAFE).ok()
}

/// Relies on base64's `encode_config` with the URL-safe configuration: the
/// padded text, which decodes back to the bytes (it panics only when the
/// encoded length overflows).
#[verifier::external_body]
pub(crate) fn encode_b64url(b: &[u8]) -> (r: Vec<u8>)
    requires
        b@.len() <= usize::MAX / 2,
    ensures
        r@ == b64url_encoded(b@),
        b64url_decoded(r@) == Some(b@),
{
    base64::encode_config(b, base64::URL_SAFE).into_bytes()
}

/// Relies on `str::as_bytes`: the UTF-8 bytes of the text.
#[verifier::external_body]
pub(crate) fn text_bytes(s: &str) -> (r: Vec<u8>)
    ensures
        r@ == utf8_of(s@),
{
    s.as_bytes().to_vec()
}

/// Relies on `std::str::from_utf8`: the text when the bytes are UTF-8.
#[verifier::external_body]
pub(crate) fn utf8_text(b: &[u8]) -> (r: Option<String>)
    ensures
        r is None <==> utf8_decoded(b@) is None,
        r matches Some(x) ==> utf8_decoded(b@) == Some(x@),
{
    match std::str::from_utf8(b) {
        Ok(s) => Some(s.to_owned()),
        Err(_) => None,
    }
}

} // verus!
