//! Header maps of the `http` crate.
//!
//! A map associates each name, in lower case, with the list of its values. [`header_entries`]
//! names what a map holds, [`name_text`] and [`value_bytes`] what names and values are; the
//! functions here say what each operation does.

use http::{HeaderMap, HeaderName, HeaderValue};
use vstd::prelude::*;
use vstd::utf8::{decode_utf8, encode_utf8};

use crate::error::{ErrorKind, OxiHttpError};
use crate::text::{
    decimal, digit, lemma_decimal_value, lemma_zero_padded_value, lower, zero_padded,
};

verus! {

/// `http::HeaderMap`, whose inside is not seen here.
#[verifier::external_type_specification]
#[verifier::external_body]
#[verifier::reject_recursive_types(T)]
pub struct ExHeaderMap<T>(http::HeaderMap<T>);

/// `http::HeaderName`, whose inside is not seen here.
#[verifier::external_type_specification]
#[verifier::external_body]
pub struct ExHeaderName(http::HeaderName);

/// `http::HeaderValue`, whose inside is not seen here.
#[verifier::external_type_specification]
#[verifier::external_body]
pub struct ExHeaderValue(http::HeaderValue);

/// `http::header::InvalidHeaderName`, whose inside is not seen here.
#[verifier::external_type_specification]
#[verifier::external_body]
pub struct ExInvalidHeaderName(http::header::InvalidHeaderName);

/// `http::header::InvalidHeaderValue`, whose inside is not seen here.
#[verifier::external_type_specification]
#[verifier::external_body]
pub struct ExInvalidHeaderValue(http::header::InvalidHeaderValue);

/// What a map holds: the values of each name, as bytes, in the order in which they were added.
pub uninterp spec fn header_entries(m: http::HeaderMap<http::HeaderValue>) -> Map<
    Seq<char>,
    Seq<Seq<u8>>,
>;

/// The text of a name, in lower case.
pub uninterp spec fn name_text(n: http::HeaderName) -> Seq<char>;

/// The bytes of a value.
pub uninterp spec fn value_bytes(v: http::HeaderValue) -> Seq<u8>;

/// How many names a map may have so that another can surely be added.
///
/// A map gives up at the latest when its table of 32768 places has no room left; where many names
/// collide it already does so when a fifth of the places is taken.
pub const MAX_NAMES: usize = 6553;

/// Whether `n` further names can surely be added to the map.
pub open spec fn has_room(m: HeaderMap, n: nat) -> bool {
    &&& header_entries(m).dom().finite()
    &&& header_entries(m).dom().len() + n <= MAX_NAMES + 1
}

// ---------------------------------------------------------------------------
// Names
// ---------------------------------------------------------------------------

/// The characters of a token (RFC 7230 §3.2.6).
pub open spec fn token_char(c: char) -> bool {
    ||| 'a' <= c <= 'z'
    ||| 'A' <= c <= 'Z'
    ||| '0' <= c <= '9'
    ||| c == '!'
    ||| c == '#'
    ||| c == '$'
    ||| c == '%'
    ||| c == '&'
    ||| c == '\''
    ||| c == '*'
    ||| c == '+'
    ||| c == '-'
    ||| c == '.'
    ||| c == '^'
    ||| c == '_'
    ||| c == '`'
    ||| c == '|'
    ||| c == '~'
}

/// Whether a text is the name of a header: a token of up to 65535 characters.
pub open spec fn valid_name(s: Seq<char>) -> bool {
    &&& 1 <= s.len() <= 65535
    &&& forall|i: int| 0 <= i < s.len() ==> token_char(#[trigger] s[i])
}

/// The characters of a token without capitals that names are made of here.
pub open spec fn lower_name_char(c: char) -> bool {
    'a' <= c <= 'z' || c == '-'
}

/// Whether a text is the name of a header, in lower case.
pub open spec fn known_name(s: Seq<char>) -> bool {
    valid_name(s) && lower(s) == s
}

/// `HeaderName::from_str` takes tokens and makes them lower case.
#[verifier::external_body]
pub(crate) fn parse_name(s: &str) -> (r: Result<HeaderName, http::header::InvalidHeaderName>)
    ensures
        r is Ok <==> valid_name(s@),
        r matches Ok(n) ==> name_text(n) == lower(s@),
{
    <HeaderName as std::str::FromStr>::from_str(s)
}

/// `HeaderName::from_static` takes tokens without capitals; it panics on anything else.
#[verifier::external_body]
pub(crate) fn static_name(s: &'static str) -> (r: HeaderName)
    requires
        known_name(s@),
    ensures
        name_text(r) == s@,
{
    HeaderName::from_static(s)
}

/// `HeaderName::clone` keeps the text.
pub assume_specification[ <http::HeaderName as Clone>::clone ](n: &http::HeaderName) -> (r:
    http::HeaderName)
    ensures
        name_text(r) == name_text(*n),
;

/// The message of `InvalidHeaderName`.
#[verifier::external_body]
pub(crate) fn invalid_name_text(e: &http::header::InvalidHeaderName) -> (r: String)
    ensures
        r@ == "invalid HTTP header name"@,
{
    e.to_string()
}

/// The names of headers that this library writes are names, in lower case.
pub proof fn lemma_known_names()
    ensures
        known_name("content-type"@),
        known_name("content-length"@),
        known_name("content-range"@),
        known_name("etag"@),
        known_name("cache-control"@),
        known_name("last-modified"@),
        known_name("upgrade"@),
        known_name("connection"@),
        known_name("sec-websocket-accept"@),
        known_name("access-control-allow-origin"@),
        known_name("access-control-allow-credentials"@),
        known_name("access-control-allow-methods"@),
        known_name("access-control-allow-headers"@),
        known_name("access-control-expose-headers"@),
        known_name("access-control-max-age"@),
        known_name("authorization"@),
        known_name("accept-encoding"@),
        known_name("cookie"@),
{
    reveal_strlit("content-type");
    lemma_known_name("content-type"@);
    reveal_strlit("content-length");
    lemma_known_name("content-length"@);
    reveal_strlit("content-range");
    lemma_known_name("content-range"@);
    reveal_strlit("etag");
    lemma_known_name("etag"@);
    reveal_strlit("cache-control");
    lemma_known_name("cache-control"@);
    reveal_strlit("last-modified");
    lemma_known_name("last-modified"@);
    reveal_strlit("upgrade");
    lemma_known_name("upgrade"@);
    reveal_strlit("connection");
    lemma_known_name("connection"@);
    reveal_strlit("sec-websocket-accept");
    lemma_known_name("sec-websocket-accept"@);
    reveal_strlit("access-control-allow-origin");
    lemma_known_name("access-control-allow-origin"@);
    reveal_strlit("access-control-allow-credentials");
    lemma_known_name("access-control-allow-credentials"@);
    reveal_strlit("access-control-allow-methods");
    lemma_known_name("access-control-allow-methods"@);
    reveal_strlit("access-control-allow-headers");
    lemma_known_name("access-control-allow-headers"@);
    reveal_strlit("access-control-expose-headers");
    lemma_known_name("access-control-expose-headers"@);
    reveal_strlit("access-control-max-age");
    lemma_known_name("access-control-max-age"@);
    reveal_strlit("authorization");
    lemma_known_name("authorization"@);
    reveal_strlit("accept-encoding");
    lemma_known_name("accept-encoding"@);
    reveal_strlit("cookie");
    lemma_known_name("cookie"@);
}

proof fn lemma_known_name(s: Seq<char>)
    requires
        1 <= s.len() <= 65535,
        forall|i: int| 0 <= i < s.len() ==> lower_name_char(#[trigger] s[i]),
    ensures
        known_name(s),
{
    assert(lower(s) =~= s);
}

// ---------------------------------------------------------------------------
// Values
// ---------------------------------------------------------------------------

/// Whether the bytes may stand in a header's value: no control characters but tabs.
pub open spec fn valid_value(s: Seq<u8>) -> bool {
    forall|i: int| 0 <= i < s.len() ==> (32 <= #[trigger] s[i] && s[i] != 127) || s[i] == 9
}

/// Whether the bytes are visible ASCII, spaces and tabs.
pub open spec fn visible(s: Seq<u8>) -> bool {
    forall|i: int| 0 <= i < s.len() ==> 32 <= #[trigger] s[i] < 127 || s[i] == 9
}

/// The text of a value that is visible ASCII.
pub open spec fn visible_text(s: Seq<u8>) -> Option<Seq<char>> {
    if visible(s) {
        Some(decode_utf8(s))
    } else {
        None
    }
}

/// `HeaderValue::from_str` takes texts without control characters but tabs.
#[verifier::external_body]
pub(crate) fn parse_value(s: &str) -> (r: Result<HeaderValue, http::header::InvalidHeaderValue>)
    ensures
        r is Ok <==> valid_value(encode_utf8(s@)),
        r matches Ok(v) ==> value_bytes(v) == encode_utf8(s@),
{
    HeaderValue::from_str(s)
}

/// `HeaderValue::to_str` gives the text of a value that is visible ASCII.
#[verifier::external_body]
pub(crate) fn value_text<'a>(v: &'a HeaderValue) -> (r: Option<&'a str>)
    ensures
        r is Some <==> visible(value_bytes(*v)),
        r matches Some(t) ==> t@ == decode_utf8(value_bytes(*v)),
{
    v.to_str().ok()
}

/// `HeaderValue::as_bytes` lends the bytes of a value.
#[verifier::external_body]
pub(crate) fn value_slice<'a>(v: &'a HeaderValue) -> (r: &'a [u8])
    ensures
        r@ == value_bytes(*v),
{
    v.as_bytes()
}

/// `HeaderValue::clone` keeps the bytes.
pub assume_specification[ <http::HeaderValue as Clone>::clone ](v: &http::HeaderValue) -> (r:
    http::HeaderValue)
    ensures
        value_bytes(r) == value_bytes(*v),
;

/// The message of `InvalidHeaderValue`.
#[verifier::external_body]
pub(crate) fn invalid_value_text(e: &http::header::InvalidHeaderValue) -> (r: String)
    ensures
        r@ == "failed to parse header value"@,
{
    e.to_string()
}

// ---------------------------------------------------------------------------
// Maps
// ---------------------------------------------------------------------------

/// The entries of an empty map.
pub open spec fn no_entries() -> Map<Seq<char>, Seq<Seq<u8>>> {
    Map::empty()
}

/// Whether the map has `n` names.
pub open spec fn names_counted(m: HeaderMap, n: nat) -> bool {
    header_entries(m).dom().finite() && header_entries(m).dom().len() == n
}

/// `HeaderMap::new` holds nothing.
pub assume_specification[ http::HeaderMap::<http::HeaderValue>::new ]() -> (r: http::HeaderMap<
    http::HeaderValue,
>)
    ensures
        header_entries(r) == no_entries(),
;

/// `HeaderMap::keys_len` counts the names.
#[verifier::external_body]
fn names_len(m: &HeaderMap) -> (r: usize)
    ensures
        names_counted(*m, r as nat),
{
    m.keys_len()
}

/// Whether `n` further names can surely be added to the map.
pub fn room_for(m: &HeaderMap, n: usize) -> (r: bool)
    ensures
        r == has_room(*m, n as nat),
{
    let k: usize = names_len(m);
    k <= MAX_NAMES + 1 && n <= MAX_NAMES + 1 - k
}

/// Whether the names of another map can surely be added to the map.
pub fn room_for_all(m: &HeaderMap, other: &HeaderMap) -> (r: bool)
    ensures
        header_entries(*other).dom().finite(),
        r == has_room(*m, header_entries(*other).dom().len()),
{
    room_for(m, names_len(other))
}

/// Whether a map has values for a name, whatever the case of its letters. A text that is no name
/// finds none, though a map may hold one that `HeaderName::from_str` refuses: names that came over
/// HTTP/2 may have a `"` in them.
pub open spec fn has_header(m: HeaderMap, name: Seq<char>) -> bool {
    valid_name(name) && header_entries(m).contains_key(lower(name))
}

/// The values of a name, in order.
pub open spec fn named_values(m: HeaderMap, name: Seq<char>) -> Seq<Seq<u8>> {
    if has_header(m, name) {
        header_entries(m)[lower(name)]
    } else {
        Seq::empty()
    }
}

/// `HeaderMap::get` finds the first value of a name, whatever the case of its letters. It reads the
/// name as `HeaderName::from_str` does, and finds nothing for a text that is none.
#[verifier::external_body]
pub(crate) fn first_value<'a>(m: &'a HeaderMap, name: &str) -> (r: Option<&'a HeaderValue>)
    ensures
        match r {
            Some(v) => has_header(*m, name@) && named_values(*m, name@).len() > 0 && value_bytes(*v)
                == named_values(*m, name@)[0],
            None => !has_header(*m, name@),
        },
{
    m.get(name)
}

/// `HeaderMap::get_all` finds all values of a name, in order. It reads the name as
/// `HeaderName::from_str` does, and finds nothing for a text that is none.
#[verifier::external_body]
pub(crate) fn all_values(m: &HeaderMap, name: &str) -> (r: Vec<HeaderValue>)
    ensures
        values_view(r@) == named_values(*m, name@),
{
    m.get_all(name).iter().cloned().collect()
}

/// The bytes of each value.
pub open spec fn values_view(v: Seq<HeaderValue>) -> Seq<Seq<u8>> {
    v.map_values(|x: HeaderValue| value_bytes(x))
}

/// `HeaderMap::insert` makes the value the only one of its name; it panics where the map is full.
#[verifier::external_body]
pub(crate) fn insert(m: &mut HeaderMap, name: HeaderName, value: HeaderValue)
    requires
        has_room(*old(m), 1),
    ensures
        header_entries(*final(m)) == header_entries(*old(m)).insert(
            name_text(name),
            seq![value_bytes(value)],
        ),
{
    m.insert(name, value);
}

/// `HeaderMap::extend` by another map replaces the values of the names that the other map has; it
/// panics where the map is full.
#[verifier::external_body]
pub(crate) fn extend(m: &mut HeaderMap, other: HeaderMap)
    requires
        has_room(*old(m), header_entries(other).dom().len()),
        header_entries(other).dom().finite(),
    ensures
        header_entries(*final(m)) == header_entries(*old(m)).union_prefer_right(
            header_entries(other),
        ),
{
    m.extend(other)
}

/// `HeaderMap::clone` keeps the entries.
#[verifier::external_body]
pub(crate) fn clone_map(m: &HeaderMap) -> (r: HeaderMap)
    ensures
        header_entries(r) == header_entries(*m),
{
    m.clone()
}

/// The values of `name` among pairs of names and values, in order.
pub open spec fn values_among(pairs: Seq<(HeaderName, HeaderValue)>, name: Seq<char>) -> Seq<
    Seq<u8>,
>
    decreases pairs.len(),
{
    if pairs.len() == 0 {
        Seq::empty()
    } else {
        let before = values_among(pairs.drop_last(), name);
        if name_text(pairs.last().0) == name {
            before.push(value_bytes(pairs.last().1))
        } else {
            before
        }
    }
}

/// `HeaderMap::iter` yields every value with its name, and the values of one name in order.
#[verifier::external_body]
pub(crate) fn pairs(m: &HeaderMap) -> (r: Vec<(HeaderName, HeaderValue)>)
    ensures
        forall|name: Seq<char>| #[trigger]
            values_among(r@, name) == if header_entries(*m).contains_key(name) {
                header_entries(*m)[name]
            } else {
                Seq::empty()
            },
{
    m.iter().map(|(n, v)| (n.clone(), v.clone())).collect()
}

// ---------------------------------------------------------------------------
// Texts
// ---------------------------------------------------------------------------

/// The first value of a name as text, where it is visible ASCII.
pub open spec fn header_str(m: HeaderMap, name: Seq<char>) -> Option<Seq<char>> {
    if has_header(m, name) {
        visible_text(named_values(m, name)[0])
    } else {
        None
    }
}

/// The characters of an optional text.
pub open spec fn opt_text(s: Option<&str>) -> Option<Seq<char>> {
    match s {
        Some(t) => Some(t@),
        None => None,
    }
}

/// The first value of a name as text, where it is visible ASCII.
pub fn get_str<'a>(m: &'a HeaderMap, name: &str) -> (r: Option<&'a str>)
    ensures
        opt_text(r) == header_str(*m, name@),
{
    match first_value(m, name) {
        Some(v) => value_text(v),
        None => None,
    }
}

/// The entries with `text` as the only value of `name`.
pub open spec fn with_header(
    entries: Map<Seq<char>, Seq<Seq<u8>>>,
    name: Seq<char>,
    text: Seq<char>,
) -> Map<Seq<char>, Seq<Seq<u8>>> {
    entries.insert(name, seq![encode_utf8(text)])
}

/// Makes a text the only value of a name; `false`, and nothing done, where the text cannot be a
/// value.
pub fn set_text(m: &mut HeaderMap, name: &'static str, text: &str) -> (r: bool)
    requires
        has_room(*old(m), 1),
        known_name(name@),
    ensures
        r == valid_value(encode_utf8(text@)),
        header_entries(*final(m)) == if r {
            with_header(header_entries(*old(m)), name@, text@)
        } else {
            header_entries(*old(m))
        },
{
    match parse_value(text) {
        Ok(v) => {
            insert(m, static_name(name), v);
            true
        },
        Err(_) => false,
    }
}

/// Whether a character is visible ASCII or a space.
pub open spec fn plain_char(c: char) -> bool {
    ' ' <= c <= '~'
}

/// Whether a text is visible ASCII and spaces.
pub open spec fn plain(s: Seq<char>) -> bool {
    forall|i: int| 0 <= i < s.len() ==> plain_char(#[trigger] s[i])
}

/// Two plain texts make a plain text.
pub proof fn lemma_plain_concat(a: Seq<char>, b: Seq<char>)
    requires
        plain(a),
        plain(b),
    ensures
        plain(a + b),
{
    let c = a + b;
    assert forall|i: int| 0 <= i < c.len() implies plain_char(#[trigger] c[i]) by {
        if i < a.len() {
            assert(c[i] == a[i]);
        } else {
            assert(c[i] == b[i - a.len()]);
        }
    }
}

/// Numerals are plain texts.
pub proof fn lemma_plain_decimal(n: nat, width: nat)
    ensures
        plain(decimal(n)),
        plain(zero_padded(decimal(n), width)),
{
    lemma_decimal_value(n);
    lemma_zero_padded_value(decimal(n), width);
    let d = decimal(n);
    let p = zero_padded(d, width);
    assert(forall|i: int| 0 <= i < d.len() ==> digit(#[trigger] d[i]));
    assert(forall|i: int| 0 <= i < p.len() ==> digit(#[trigger] p[i]));
}

/// A text of visible ASCII and spaces can be a value, and is read back from it.
pub proof fn lemma_plain_value(s: Seq<char>)
    requires
        plain(s),
    ensures
        valid_value(encode_utf8(s)),
        visible(encode_utf8(s)),
        visible_text(encode_utf8(s)) == Some(s),
        encode_utf8(s).len() == s.len(),
{
    broadcast use vstd::utf8::encode_utf8_decode_utf8;

    assert(vstd::utf8::is_ascii_chars(s)) by {
        assert(forall|i: int| 0 <= i < s.len() ==> (#[trigger] s[i] as nat) < 128);
    }
    vstd::utf8::is_ascii_chars_encode_utf8(s);
    let b = encode_utf8(s);
    assert forall|i: int| 0 <= i < b.len() implies 32 <= #[trigger] b[i] < 127 by {
        assert(plain_char(s[i]));
        assert(s[i] as u8 == b[i]);
    }
}

/// The error for a text that cannot be the value of a header.
pub fn invalid_value_error(e: http::header::InvalidHeaderValue) -> (r: OxiHttpError)
    ensures
        r@ == (ErrorKind::InvalidHeader, "failed to parse header value"@),
{
    OxiHttpError::InvalidHeader(invalid_value_text(&e))
}

} // verus!
