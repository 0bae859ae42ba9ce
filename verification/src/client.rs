//! Requests and responses of a client.

use bytes::Bytes;
use http::HeaderMap;
use std::time::Duration;
use vstd::prelude::*;
use vstd::slice::slice_to_vec;
use vstd::utf8::{decode_utf8, encode_utf8, valid_utf8};

use crate::encoding::{
    base64_encode, base64_text, is_base64_char, law_base64_injective, law_base64_shape,
    str_from_utf8, string_from_utf8, utf8_problem,
};
use crate::error::{ErrorKind, OxiHttpError};
use crate::exchange::RetryPolicy;
use crate::headers::{
    all_values, clone_map, extend, first_value, get_str, has_header, has_room, header_entries,
    header_str, insert, invalid_name_text, invalid_value_error, lemma_known_names,
    lemma_plain_concat, lemma_plain_value, name_text, named_values, no_entries, opt_text, pairs,
    parse_name, parse_value, plain, plain_char, set_text, static_name, valid_name, valid_value,
    value_bytes, value_slice, value_text, values_among, values_view, visible_text, with_header,
    MAX_NAMES,
};
use crate::http_types::Method;
use crate::multipart::{
    boundary_text, first_free, lemma_boundary_plain, FormContent, MultipartBuilder,
};
use crate::octets::{bytes_from_vec, bytes_of, bytes_slice, max_len};
use crate::text::{
    chars_of, decimal, lower, number_of, parse_number, same_text, string_texts, to_decimal,
    to_lower,
};
use crate::uri::{uri_of, Uri, UriView};

verus! {

// ---------------------------------------------------------------------------
// Compressed bodies
// ---------------------------------------------------------------------------

/// What `gzip_decompress` makes of the data: the decompressed data, or the message of its error.
pub uninterp spec fn gunzipped(data: Seq<u8>) -> Result<Seq<u8>, Seq<char>>;

/// What `zlib_decompress` makes of the data: the decompressed data, or the message of its error.
pub uninterp spec fn unzlibbed(data: Seq<u8>) -> Result<Seq<u8>, Seq<char>>;

/// What `inflate` makes of the data: the decompressed data, or the message of its error.
pub uninterp spec fn inflated(data: Seq<u8>) -> Result<Seq<u8>, Seq<char>>;

/// The data or the message of a decompression.
pub open spec fn unpacked(r: Result<Vec<u8>, String>) -> Result<Seq<u8>, Seq<char>> {
    match r {
        Ok(v) => Ok(v@),
        Err(m) => Err(m@),
    }
}

/// `oxiarc_deflate::gzip_decompress` decompresses gzip data.
#[verifier::external_body]
fn gzip_decompress(data: &[u8]) -> (r: Result<Vec<u8>, String>)
    ensures
        unpacked(r) == gunzipped(data@),
{
    oxiarc_deflate::gzip_decompress(data).map_err(|e| e.to_string())
}

/// `oxiarc_deflate::zlib_decompress` decompresses deflate data in its zlib wrapper.
#[verifier::external_body]
fn zlib_decompress(data: &[u8]) -> (r: Result<Vec<u8>, String>)
    ensures
        unpacked(r) == unzlibbed(data@),
{
    oxiarc_deflate::zlib_decompress(data).map_err(|e| e.to_string())
}

/// `oxiarc_deflate::inflate` decompresses bare deflate data.
#[verifier::external_body]
fn inflate(data: &[u8]) -> (r: Result<Vec<u8>, String>)
    ensures
        unpacked(r) == inflated(data@),
{
    oxiarc_deflate::inflate(data).map_err(|e| e.to_string())
}

/// How a body is compressed.
#[derive(Debug, Clone, Copy, PartialEq, Eq, Structural)]
pub enum Coding {
    /// Not, or in a way that is not undone.
    Identity,
    Gzip,
    Deflate,
}

/// The coding that a `Content-Encoding` names, in any case of letters.
pub open spec fn coding_of(m: HeaderMap) -> Coding {
    match header_str(m, "content-encoding"@) {
        Some(v) => if lower(v) == "gzip"@ {
            Coding::Gzip
        } else if lower(v) == "deflate"@ {
            Coding::Deflate
        } else {
            Coding::Identity
        },
        None => Coding::Identity,
    }
}

/// The error of a decompression.
pub open spec fn decompression_failure(
    prefix: Seq<char>,
    r: Result<Seq<u8>, Seq<char>>,
) -> Result<Seq<u8>, (ErrorKind, Seq<char>)> {
    match r {
        Ok(data) => Ok(data),
        Err(m) => Err((ErrorKind::Body, prefix + m)),
    }
}

/// A body without its compression. Deflate data may come without its zlib wrapper.
pub open spec fn decoded(coding: Coding, raw: Seq<u8>) -> Result<Seq<u8>, (ErrorKind, Seq<char>)> {
    match coding {
        Coding::Identity => Ok(raw),
        Coding::Gzip => decompression_failure("gzip decompression error: "@, gunzipped(raw)),
        Coding::Deflate => match unzlibbed(raw) {
            Ok(data) => Ok(data),
            Err(_) => decompression_failure(
                "deflate decompression error: deflate decompression error: "@,
                inflated(raw),
            ),
        },
    }
}

/// Hands on decompressed data, or reports why there is none.
pub fn decompression_outcome(prefix: &str, r: Result<Vec<u8>, String>) -> (o: Result<
    Bytes,
    OxiHttpError,
>)
    ensures
        decompression_failure(prefix@, unpacked(r)) == match o {
            Ok(b) => Ok(bytes_of(b)),
            Err(e) => Err(e@),
        },
{
    match r {
        Ok(data) => Ok(bytes_from_vec(data)),
        Err(why) => {
            let mut m = prefix.to_owned();
            m.append(why.as_str());
            Err(OxiHttpError::Body(m))
        },
    }
}

/// Undoes the compression of a body.
pub fn decode_body(coding: Coding, raw: Bytes) -> (r: Result<Bytes, OxiHttpError>)
    ensures
        decoded(coding, bytes_of(raw)) == match r {
            Ok(b) => Ok(bytes_of(b)),
            Err(e) => Err(e@),
        },
{
    match coding {
        Coding::Identity => Ok(raw),
        Coding::Gzip => decompression_outcome(
            "gzip decompression error: ",
            gzip_decompress(bytes_slice(&raw)),
        ),
        Coding::Deflate => {
            // Some servers send deflate data without the zlib wrapper.
            match zlib_decompress(bytes_slice(&raw)) {
                Ok(data) => Ok(bytes_from_vec(data)),
                Err(_) => decompression_outcome(
                    "deflate decompression error: deflate decompression error: ",
                    inflate(bytes_slice(&raw)),
                ),
            }
        },
    }
}

// ---------------------------------------------------------------------------
// Responses
// ---------------------------------------------------------------------------

/// The reason phrase of a status code, where it has one.
pub uninterp spec fn reason_phrase(code: u16) -> Option<Seq<char>>;

/// `StatusCode::canonical_reason` knows the phrases of the registered status codes.
#[verifier::external_body]
fn canonical_reason(code: u16) -> (r: Option<&'static str>)
    ensures
        opt_text(r) == reason_phrase(code),
{
    http::StatusCode::from_u16(code).ok().and_then(|s| s.canonical_reason())
}

/// The message about a response that reports an error.
pub open spec fn status_message(code: u16, reason: Option<Seq<char>>) -> Seq<char> {
    "HTTP error: "@ + decimal(code as nat) + " "@ + match reason {
        Some(r) => r,
        None => "Unknown"@,
    }
}

/// The error for a response that reports one.
pub fn status_error(code: u16, reason: Option<&str>) -> (r: OxiHttpError)
    ensures
        r@ == (ErrorKind::Body, status_message(code, opt_text(reason))),
{
    let mut m = "HTTP error: ".to_owned();
    m.append(to_decimal(code as u64).as_str());
    m.append(" ");
    match reason {
        Some(r) => m.append(r),
        None => m.append("Unknown"),
    }
    OxiHttpError::Body(m)
}

/// `http::Version`, whose inside is not seen here.
#[verifier::external_type_specification]
#[verifier::external_body]
pub struct ExVersion(http::Version);

/// A response. `B` is its body, as it is still to be read.
#[derive(Debug)]
pub struct Response<B> {
    /// The status code.
    pub status: u16,
    /// The headers.
    pub headers: HeaderMap,
    /// The version of HTTP that it came in.
    pub version: http::Version,
    /// The body, still to be read.
    pub body: B,
    /// Whether the body is decompressed.
    pub decompress: bool,
}

/// The first value of a header as text, where it is UTF-8.
pub open spec fn header_utf8(m: HeaderMap, name: Seq<char>) -> Option<Seq<char>> {
    if has_header(m, name) && valid_utf8(named_values(m, name)[0]) {
        Some(decode_utf8(named_values(m, name)[0]))
    } else {
        None
    }
}

/// The values that are visible ASCII, as texts.
pub open spec fn visible_texts(values: Seq<Seq<u8>>) -> Seq<Seq<char>>
    decreases values.len(),
{
    if values.len() == 0 {
        Seq::empty()
    } else {
        let before = visible_texts(values.drop_last());
        match visible_text(values.last()) {
            Some(t) => before.push(t),
            None => before,
        }
    }
}

/// The texts of the `Set-Cookie` headers.
pub open spec fn set_cookie_texts(m: HeaderMap) -> Seq<Seq<char>> {
    visible_texts(named_values(m, "set-cookie"@))
}

impl<B> Response<B> {
    /// The status code.
    pub fn status(&self) -> (r: u16)
        ensures
            r == self.status,
    {
        self.status
    }

    /// The headers.
    pub fn headers(&self) -> (r: &HeaderMap)
        ensures
            *r == self.headers,
    {
        &self.headers
    }

    /// The first value of a header as text; `None` where it is absent or not UTF-8.
    pub fn header(&self, name: &str) -> (r: Option<&str>)
        ensures
            opt_text(r) == header_utf8(self.headers, name@),
    {
        match first_value(&self.headers, name) {
            Some(v) => str_from_utf8(value_slice(v)),
            None => None,
        }
    }

    /// The version of HTTP that it came in.
    pub fn version(&self) -> (r: http::Version)
        ensures
            r == self.version,
    {
        self.version
    }

    /// The length that `Content-Length` announces.
    pub fn content_length(&self) -> (r: Option<u64>)
        ensures
            match header_str(self.headers, "content-length"@) {
                Some(v) => number_of(v, u64::MAX as nat) == match r {
                    Some(n) => Some(n as nat),
                    None => None,
                },
                None => r is None,
            },
    {
        match get_str(&self.headers, "content-length") {
            Some(v) => {
                let chars = chars_of(v);
                parse_number(chars.as_slice(), u64::MAX)
            },
            None => None,
        }
    }

    /// How the body is to be decompressed: not at all where that is off.
    pub fn coding(&self) -> (r: Coding)
        ensures
            r == if self.decompress {
                coding_of(self.headers)
            } else {
                Coding::Identity
            },
    {
        if !self.decompress {
            return Coding::Identity;
        }
        match get_str(&self.headers, "content-encoding") {
            Some(v) => {
                let name = to_lower(v);
                if same_text(name.as_str(), "gzip") {
                    Coding::Gzip
                } else if same_text(name.as_str(), "deflate") {
                    Coding::Deflate
                } else {
                    Coding::Identity
                }
            },
            None => Coding::Identity,
        }
    }

    /// The body, given its bytes as they came, decompressed where that is on.
    pub fn body_bytes(&self, raw: Bytes) -> (r: Result<Bytes, OxiHttpError>)
        ensures
            decoded(
                if self.decompress {
                    coding_of(self.headers)
                } else {
                    Coding::Identity
                },
                bytes_of(raw),
            ) == match r {
                Ok(b) => Ok(bytes_of(b)),
                Err(e) => Err(e@),
            },
    {
        decode_body(self.coding(), raw)
    }

    /// The body as text, given its bytes as they came.
    pub fn body_text(&self, raw: Bytes) -> (r: Result<String, OxiHttpError>)
        ensures
            body_as_text(
                decoded(
                    if self.decompress {
                        coding_of(self.headers)
                    } else {
                        Coding::Identity
                    },
                    bytes_of(raw),
                ),
            ) == match r {
                Ok(s) => Ok(s@),
                Err(e) => Err(e@),
            },
    {
        let bytes = match self.body_bytes(raw) {
            Ok(b) => b,
            Err(e) => return Err(e),
        };
        match string_from_utf8(slice_to_vec(bytes_slice(&bytes))) {
            Ok(s) => Ok(s),
            Err(why) => {
                let mut m = "invalid UTF-8: ".to_owned();
                m.append(why.as_str());
                Err(OxiHttpError::Body(m))
            },
        }
    }

    /// Hands the response on, or reports the error (4xx or 5xx) that it is.
    pub fn error_for_status(self) -> (r: Result<Self, OxiHttpError>)
        ensures
            if 400 <= self.status < 600 {
                r matches Err(e) && e@ == (
                    ErrorKind::Body,
                    status_message(self.status, reason_phrase(self.status)),
                )
            } else {
                r == Ok::<Self, OxiHttpError>(self)
            },
    {
        if 400 <= self.status && self.status < 600 {
            Err(status_error(self.status, canonical_reason(self.status)))
        } else {
            Ok(self)
        }
    }

    /// The `Content-Type`.
    pub fn content_type(&self) -> (r: Option<&str>)
        ensures
            opt_text(r) == header_str(self.headers, "content-type"@),
    {
        get_str(&self.headers, "content-type")
    }

    /// The texts of the `Set-Cookie` headers that are visible ASCII, in order.
    pub fn cookies(&self) -> (r: Vec<String>)
        ensures
            string_texts(r@) == set_cookie_texts(self.headers),
    {
        let values = all_values(&self.headers, "set-cookie");
        let ghost all = values_view(values@);
        let mut out: Vec<String> = Vec::new();
        let mut i: usize = 0;
        assert(string_texts(out@) =~= visible_texts(all.take(0)));
        while i < values.len()
            invariant
                i <= values@.len(),
                all == values_view(values@),
                string_texts(out@) == visible_texts(all.take(i as int)),
            decreases values@.len() - i,
        {
            proof {
                assert(all.take(i + 1).drop_last() =~= all.take(i as int));
                assert(all.take(i + 1).last() == value_bytes(values@[i as int]));
            }
            let ghost before = out@;
            if let Some(t) = value_text(&values[i]) {
                out.push(t.to_owned());
                assert(string_texts(out@) =~= string_texts(before).push(t@));
            }
            i += 1;
        }
        assert(all.take(i as int) =~= all);
        out
    }

    /// The body, still to be read.
    pub fn into_body(self) -> (r: B)
        ensures
            r == self.body,
    {
        self.body
    }
}

/// A body as text.
pub open spec fn body_as_text(body: Result<Seq<u8>, (ErrorKind, Seq<char>)>) -> Result<
    Seq<char>,
    (ErrorKind, Seq<char>),
> {
    match body {
        Err(e) => Err(e),
        Ok(b) => if valid_utf8(b) {
            Ok(decode_utf8(b))
        } else {
            Err((ErrorKind::Body, "invalid UTF-8: "@ + utf8_problem(b)))
        },
    }
}

// ---------------------------------------------------------------------------
// Requests
// ---------------------------------------------------------------------------

/// A request that is being put together. `C` sends it.
pub struct RequestBuilder<C> {
    /// What sends the request.
    pub client: C,
    /// The method.
    pub method: Method,
    /// Where it goes.
    pub uri: Uri,
    /// Its headers.
    pub headers: HeaderMap,
    /// Its body.
    pub body: Bytes,
    /// How long it may take.
    pub timeout: Option<Duration>,
    /// How many redirects are followed; `None` for any number.
    pub max_redirects: Option<usize>,
    /// When it is tried again.
    pub retry_policy: Option<RetryPolicy>,
    /// Whether responses are decompressed.
    pub decompression: bool,
}

/// The error for a header's name that is none.
pub open spec fn name_failure<T>() -> Result<T, (ErrorKind, Seq<char>)> {
    Err((ErrorKind::InvalidHeader, "invalid HTTP header name"@))
}

/// The error for a header's value that is none.
pub open spec fn value_failure<T>() -> Result<T, (ErrorKind, Seq<char>)> {
    Err((ErrorKind::InvalidHeader, "failed to parse header value"@))
}

/// The headers with one more, or why there are none.
pub open spec fn header_added(
    entries: Map<Seq<char>, Seq<Seq<u8>>>,
    key: Seq<char>,
    value: Seq<char>,
) -> Result<Map<Seq<char>, Seq<Seq<u8>>>, (ErrorKind, Seq<char>)> {
    if !valid_name(key) {
        name_failure()
    } else if !valid_value(encode_utf8(value)) {
        value_failure()
    } else {
        Ok(with_header(entries, lower(key), value))
    }
}

/// The headers of a request with a multipart body: with its `Content-Type` where none is set and
/// the boundary can be in one.
pub open spec fn multipart_headers(
    entries: Map<Seq<char>, Seq<Seq<u8>>>,
    boundary: Seq<char>,
) -> Map<Seq<char>, Seq<Seq<u8>>> {
    let text = "multipart/form-data; boundary="@ + boundary;
    if entries.contains_key("content-type"@) || !valid_value(encode_utf8(text)) {
        entries
    } else {
        with_header(entries, "content-type"@, text)
    }
}

/// The credentials of basic authentication.
pub open spec fn basic_credentials(username: Seq<char>, password: Option<Seq<char>>) -> Seq<char> {
    username + ":"@ + match password {
        Some(p) => p,
        None => Seq::empty(),
    }
}

/// Makes a text the value of `Authorization`.
fn set_authorization(headers: &mut HeaderMap, text: &str) -> (r: Result<(), OxiHttpError>)
    requires
        has_room(*old(headers), 1),
    ensures
        match r {
            Ok(()) => valid_value(encode_utf8(text@)) && header_entries(*final(headers))
                == with_header(header_entries(*old(headers)), "authorization"@, text@),
            Err(e) => !valid_value(encode_utf8(text@)) && e@ == (
                ErrorKind::InvalidHeader,
                "failed to parse header value"@,
            ),
        },
{
    proof {
        lemma_known_names();
    }
    match parse_value(text) {
        Ok(v) => {
            insert(headers, static_name("authorization"), v);
            Ok(())
        },
        Err(e) => Err(invalid_value_error(e)),
    }
}

impl<C> RequestBuilder<C> {
    /// Sets a header.
    pub fn header(self, key: &str, value: &str) -> (r: Result<Self, OxiHttpError>)
        requires
            has_room(self.headers, 1),
        ensures
            match r {
                Ok(b) => header_added(header_entries(self.headers), key@, value@) == Ok::<
                    Map<Seq<char>, Seq<Seq<u8>>>,
                    (ErrorKind, Seq<char>),
                >(header_entries(b.headers)) && b == (RequestBuilder {
                    headers: b.headers,
                    ..self
                }),
                Err(e) => header_added(header_entries(self.headers), key@, value@) == Err::<
                    Map<Seq<char>, Seq<Seq<u8>>>,
                    (ErrorKind, Seq<char>),
                >(e@),
            },
    {
        let k = match parse_name(key) {
            Ok(k) => k,
            Err(e) => return Err(OxiHttpError::InvalidHeader(invalid_name_text(&e))),
        };
        let v = match parse_value(value) {
            Ok(v) => v,
            Err(e) => return Err(invalid_value_error(e)),
        };
        let mut b = self;
        insert(&mut b.headers, k, v);
        Ok(b)
    }

    /// Sets the headers that a map holds.
    pub fn headers(self, map: HeaderMap) -> (r: Self)
        requires
            header_entries(map).dom().finite(),
            has_room(self.headers, header_entries(map).dom().len()),
        ensures
            header_entries(r.headers) == header_entries(self.headers).union_prefer_right(
                header_entries(map),
            ),
            r == (RequestBuilder { headers: r.headers, ..self }),
    {
        let mut b = self;
        extend(&mut b.headers, map);
        b
    }

    /// Sets a bearer token.
    pub fn bearer_token(self, token: &str) -> (r: Result<Self, OxiHttpError>)
        requires
            has_room(self.headers, 1),
        ensures
            match r {
                Ok(b) => valid_value(encode_utf8("Bearer "@ + token@)) && header_entries(b.headers)
                    == with_header(
                    header_entries(self.headers),
                    "authorization"@,
                    "Bearer "@ + token@,
                ) && b == (RequestBuilder { headers: b.headers, ..self }),
                Err(e) => !valid_value(encode_utf8("Bearer "@ + token@)) && e@ == (
                    ErrorKind::InvalidHeader,
                    "failed to parse header value"@,
                ),
            },
    {
        let mut text = "Bearer ".to_owned();
        text.append(token);
        let mut b = self;
        match set_authorization(&mut b.headers, text.as_str()) {
            Ok(()) => Ok(b),
            Err(e) => Err(e),
        }
    }

    /// Sets the credentials of basic authentication.
    pub fn basic_auth(self, username: &str, password: Option<&str>) -> (r: Result<
        Self,
        OxiHttpError,
    >)
        requires
            has_room(self.headers, 1),
        ensures
            r matches Ok(b) && header_entries(b.headers) == with_header(
                header_entries(self.headers),
                "authorization"@,
                "Basic "@ + base64_text(
                    encode_utf8(basic_credentials(username@, opt_text(password))),
                ),
            ) && b == (RequestBuilder { headers: b.headers, ..self }),
    {
        let mut credentials = username.to_owned();
        credentials.append(":");
        if let Some(p) = password {
            credentials.append(p);
        }
        assert(credentials@ =~= basic_credentials(username@, opt_text(password)));
        let encoded = base64_encode(credentials.as_str().as_bytes());
        let mut text = "Basic ".to_owned();
        text.append(encoded.as_str());
        proof {
            let data = encode_utf8(credentials@);
            law_base64_shape(data);
            assert(forall|c: char| #[trigger] is_base64_char(c) ==> plain_char(c));
            assert(plain(base64_text(data)));
            reveal_strlit("Basic ");
            lemma_plain_concat("Basic "@, base64_text(data));
            lemma_plain_value(text@);
        }
        let mut b = self;
        match set_authorization(&mut b.headers, text.as_str()) {
            Ok(()) => Ok(b),
            Err(e) => Err(e),
        }
    }

    /// Sets the body.
    pub fn body(self, b: Bytes) -> (r: Self)
        ensures
            r == (RequestBuilder { body: b, ..self }),
    {
        RequestBuilder { body: b, ..self }
    }

    /// Sets a body that is JSON, and its `Content-Type`.
    pub fn json(self, json_bytes: Vec<u8>) -> (r: Self)
        requires
            has_room(self.headers, 1),
        ensures
            bytes_of(r.body) == json_bytes@,
            header_entries(r.headers) == with_header(
                header_entries(self.headers),
                "content-type"@,
                "application/json"@,
            ),
            r == (RequestBuilder { headers: r.headers, body: r.body, ..self }),
    {
        proof {
            lemma_known_names();
            reveal_strlit("application/json");
            lemma_plain_value("application/json"@);
        }
        let mut b = self;
        b.body = bytes_from_vec(json_bytes);
        set_text(&mut b.headers, "content-type", "application/json");
        b
    }

    /// Sets a body that is URL-encoded form data, and its `Content-Type`.
    pub fn form(self, form_body: Bytes) -> (r: Self)
        requires
            has_room(self.headers, 1),
        ensures
            r.body == form_body,
            header_entries(r.headers) == with_header(
                header_entries(self.headers),
                "content-type"@,
                "application/x-www-form-urlencoded"@,
            ),
            r == (RequestBuilder { headers: r.headers, body: r.body, ..self }),
    {
        proof {
            lemma_known_names();
            reveal_strlit("application/x-www-form-urlencoded");
            lemma_plain_value("application/x-www-form-urlencoded"@);
        }
        let mut b = self;
        b.body = form_body;
        set_text(&mut b.headers, "content-type", "application/x-www-form-urlencoded");
        b
    }

    /// Sets a multipart body, and its `Content-Type` where none is set.
    ///
    /// The `Content-Type` announces the boundary that the body has. One that was set before stays as
    /// it is.
    pub fn multipart(self, builder: MultipartBuilder) -> (r: Self)
        requires
            has_room(self.headers, 1),
            builder@.resolvable(),
            builder@.wire().len() <= max_len(),
        ensures
            bytes_of(r.body) == builder@.wire(),
            header_entries(r.headers) == multipart_headers(
                header_entries(self.headers),
                builder@.unique_boundary(),
            ),
            r == (RequestBuilder { headers: r.headers, body: r.body, ..self }),
    {
        proof {
            lemma_known_names();
        }
        let content_type = builder.content_type();
        let mut b = self;
        b.body = builder.build();
        if first_value(&b.headers, "content-type").is_none() {
            set_text(&mut b.headers, "content-type", content_type.as_str());
        }
        b
    }

    /// Sets how long the request may take.
    pub fn timeout(self, duration: Duration) -> (r: Self)
        ensures
            r == (RequestBuilder { timeout: Some(duration), ..self }),
    {
        RequestBuilder { timeout: Some(duration), ..self }
    }
}

// ---------------------------------------------------------------------------
// Clients
// ---------------------------------------------------------------------------

/// A client. `C` sends its requests.
pub struct Client<C> {
    /// What sends the requests.
    pub inner: C,
    /// How many redirects are followed; `None` for any number.
    pub max_redirects: Option<usize>,
    /// When a request is tried again.
    pub retry_policy: Option<RetryPolicy>,
    /// The headers of every request.
    pub default_headers: HeaderMap,
    /// How long connecting may take.
    pub connect_timeout: Option<Duration>,
    /// How long reading may take.
    pub read_timeout: Option<Duration>,
    /// Whether responses are decompressed.
    pub decompression: bool,
}

/// Each name with the last of its values.
pub open spec fn last_values(entries: Map<Seq<char>, Seq<Seq<u8>>>) -> Map<
    Seq<char>,
    Seq<Seq<u8>>,
> {
    Map::new(
        |name: Seq<char>| entries.contains_key(name) && entries[name].len() > 0,
        |name: Seq<char>| seq![entries[name].last()],
    )
}

/// A request of a client, before anything is set.
pub open spec fn new_request<C: Clone>(
    client: Client<C>,
    method: Seq<char>,
    uri: UriView,
    r: RequestBuilder<C>,
) -> bool {
    &&& cloned(client.inner, r.client)
    &&& r.method@ == method
    &&& r.uri@ == uri
    &&& header_entries(r.headers) == last_values(header_entries(client.default_headers))
    &&& bytes_of(r.body) == Seq::<u8>::empty()
    &&& r.timeout is None
    &&& r.max_redirects == client.max_redirects
    &&& r.retry_policy == client.retry_policy
    &&& r.decompression == client.decompression
}

/// What a request for a URL comes to.
pub open spec fn requested<C: Clone>(
    client: Client<C>,
    method: Seq<char>,
    url: Seq<char>,
    r: Result<RequestBuilder<C>, OxiHttpError>,
) -> bool {
    match uri_of(url) {
        Ok(uri) => r matches Ok(b) && uri.wf() && new_request(client, method, uri, b),
        Err(e) => r matches Err(f) && f@ == e,
    }
}

/// A pair's name has a value among the pairs.
proof fn lemma_pair_counts(list: Seq<(http::HeaderName, http::HeaderValue)>, i: int)
    requires
        0 <= i < list.len(),
    ensures
        values_among(list, name_text(list[i].0)).len() > 0,
    decreases list.len(),
{
    if i < list.len() - 1 {
        lemma_pair_counts(list.drop_last(), i);
    }
}

/// What each name has after the pairs were set in turn: its last value.
spec fn holds_last(
    entries: Map<Seq<char>, Seq<Seq<u8>>>,
    list: Seq<(http::HeaderName, http::HeaderValue)>,
    name: Seq<char>,
) -> bool {
    let values = values_among(list, name);
    &&& entries.contains_key(name) <==> values.len() > 0
    &&& values.len() > 0 ==> entries[name] == seq![values.last()]
}

/// Sets each of the pairs in turn. Their names are among `names`.
fn insert_pairs(
    out: &mut HeaderMap,
    list: Vec<(http::HeaderName, http::HeaderValue)>,
    Ghost(names): Ghost<Set<Seq<char>>>,
)
    requires
        header_entries(*old(out)) == no_entries(),
        names.finite(),
        names.len() <= MAX_NAMES,
        forall|i: int| 0 <= i < list@.len() ==> names.contains(name_text((#[trigger] list@[i]).0)),
    ensures
        forall|name: Seq<char>| #[trigger] holds_last(header_entries(*final(out)), list@, name),
{
    let mut i: usize = 0;
    assert(header_entries(*out).dom().subset_of(names));
    while i < list.len()
        invariant
            i <= list@.len(),
            names.finite(),
            names.len() <= MAX_NAMES,
            forall|j: int|
                0 <= j < list@.len() ==> names.contains(name_text((#[trigger] list@[j]).0)),
            header_entries(*out).dom().subset_of(names),
            forall|name: Seq<char>| #[trigger]
                holds_last(header_entries(*out), list@.take(i as int), name),
        decreases list@.len() - i,
    {
        let (name, value) = (list[i].0.clone(), list[i].1.clone());
        let ghost before = header_entries(*out);
        proof {
            assert(list@.take(i + 1).drop_last() =~= list@.take(i as int));
            assert(list@.take(i + 1).last() == list@[i as int]);
            vstd::set_lib::lemma_len_subset(before.dom(), names);
        }
        insert(out, name, value);
        proof {
            assert forall|n: Seq<char>| #[trigger]
                holds_last(header_entries(*out), list@.take(i + 1), n) by {
                assert(holds_last(before, list@.take(i as int), n));
            }
        }
        i += 1;
    }
    assert(list@.take(i as int) =~= list@);
}

impl<C: Clone> Client<C> {
    /// A request of the given method for a URL, with the default headers.
    pub fn request_builder(&self, method: Method, url: &str) -> (r: Result<
        RequestBuilder<C>,
        OxiHttpError,
    >)
        requires
            has_room(self.default_headers, 1),
        ensures
            requested(*self, method@, url@, r),
    {
        let uri = match Uri::from_text(url) {
            Ok(uri) => uri,
            Err(e) => return Err(e),
        };
        let list = pairs(&self.default_headers);
        let mut headers = HeaderMap::new();
        let ghost entries = header_entries(self.default_headers);
        proof {
            assert forall|i: int| 0 <= i < list@.len() implies entries.dom().contains(
                name_text((#[trigger] list@[i]).0),
            ) by {
                lemma_pair_counts(list@, i);
            }
        }
        let ghost all = list@;
        insert_pairs(&mut headers, list, Ghost(entries.dom()));
        proof {
            let e = header_entries(headers);
            assert forall|name: Seq<char>|
                #[trigger] e.contains_key(name) == last_values(entries).contains_key(name) && (
                e.contains_key(name) ==> e[name] == last_values(entries)[name]) by {
                assert(holds_last(e, all, name));
                assert(values_among(all, name) == if entries.contains_key(name) {
                    entries[name]
                } else {
                    Seq::empty()
                });
            }
            assert(e =~= last_values(entries));
        }
        Ok(
            RequestBuilder {
                client: self.inner.clone(),
                method,
                uri,
                headers,
                body: Bytes::new(),
                timeout: None,
                max_redirects: self.max_redirects,
                retry_policy: self.retry_policy,
                decompression: self.decompression,
            },
        )
    }

    /// A GET request for a URL.
    pub fn get(&self, url: &str) -> (r: Result<RequestBuilder<C>, OxiHttpError>)
        requires
            has_room(self.default_headers, 1),
        ensures
            requested(*self, "GET"@, url@, r),
    {
        self.request_builder(Method::Get, url)
    }

    /// A POST request for a URL.
    pub fn post(&self, url: &str) -> (r: Result<RequestBuilder<C>, OxiHttpError>)
        requires
            has_room(self.default_headers, 1),
        ensures
            requested(*self, "POST"@, url@, r),
    {
        self.request_builder(Method::Post, url)
    }

    /// A PUT request for a URL.
    pub fn put(&self, url: &str) -> (r: Result<RequestBuilder<C>, OxiHttpError>)
        requires
            has_room(self.default_headers, 1),
        ensures
            requested(*self, "PUT"@, url@, r),
    {
        self.request_builder(Method::Put, url)
    }

    /// A DELETE request for a URL.
    pub fn delete(&self, url: &str) -> (r: Result<RequestBuilder<C>, OxiHttpError>)
        requires
            has_room(self.default_headers, 1),
        ensures
            requested(*self, "DELETE"@, url@, r),
    {
        self.request_builder(Method::Delete, url)
    }

    /// A PATCH request for a URL.
    pub fn patch(&self, url: &str) -> (r: Result<RequestBuilder<C>, OxiHttpError>)
        requires
            has_room(self.default_headers, 1),
        ensures
            requested(*self, "PATCH"@, url@, r),
    {
        self.request_builder(Method::Patch, url)
    }

    /// A HEAD request for a URL.
    pub fn head(&self, url: &str) -> (r: Result<RequestBuilder<C>, OxiHttpError>)
        requires
            has_room(self.default_headers, 1),
        ensures
            requested(*self, "HEAD"@, url@, r),
    {
        self.request_builder(Method::Head, url)
    }
}

impl<C> Client<C> {
    /// A client with the same settings whose requests something else sends.
    pub fn with_inner<D>(&self, inner: D) -> (r: Client<D>)
        ensures
            r.inner == inner,
            r.max_redirects == self.max_redirects,
            r.retry_policy == self.retry_policy,
            header_entries(r.default_headers) == header_entries(self.default_headers),
            r.connect_timeout == self.connect_timeout,
            r.read_timeout == self.read_timeout,
            r.decompression == self.decompression,
    {
        Client {
            inner,
            max_redirects: self.max_redirects,
            retry_policy: self.retry_policy,
            default_headers: clone_map(&self.default_headers),
            connect_timeout: self.connect_timeout,
            read_timeout: self.read_timeout,
            decompression: self.decompression,
        }
    }

    /// When a request is tried again.
    pub fn retry_policy(&self) -> (r: Option<&RetryPolicy>)
        ensures
            match r {
                Some(p) => self.retry_policy == Some(*p),
                None => self.retry_policy is None,
            },
    {
        self.retry_policy.as_ref()
    }

    /// How long connecting may take.
    pub fn connect_timeout(&self) -> (r: Option<Duration>)
        ensures
            r == self.connect_timeout,
    {
        self.connect_timeout
    }

    /// How long reading may take.
    pub fn read_timeout(&self) -> (r: Option<Duration>)
        ensures
            r == self.read_timeout,
    {
        self.read_timeout
    }
}

// ---------------------------------------------------------------------------
// Laws
// ---------------------------------------------------------------------------

/// A `Content-Type` that is set before the multipart body stays, in any case of its letters.
pub proof fn law_explicit_content_type_kept(
    entries: Map<Seq<char>, Seq<Seq<u8>>>,
    key: Seq<char>,
    value: Seq<char>,
    boundary: Seq<char>,
)
    requires
        lower(key) == "content-type"@,
    ensures
        header_added(entries, key, value) matches Ok(e) ==> multipart_headers(e, boundary) == e,
{
}

/// The generated boundaries can be in a `Content-Type`, so a multipart body without one gets it.
pub proof fn law_generated_boundary_announced(
    entries: Map<Seq<char>, Seq<Seq<u8>>>,
    form: FormContent,
    nanos: u32,
    counter: u64,
)
    requires
        !entries.contains_key("content-type"@),
        form.boundary == boundary_text(nanos, counter),
    ensures
        multipart_headers(entries, form.unique_boundary()) == with_header(
            entries,
            "content-type"@,
            form.content_type(),
        ),
{
    let b = form.unique_boundary();
    lemma_boundary_plain(nanos, counter, first_free(form.boundary, form.parts, 0));
    reveal_strlit("multipart/form-data; boundary=");
    lemma_plain_concat("multipart/form-data; boundary="@, b);
    lemma_plain_value(form.content_type());
}

/// Without decompression a body is handed on as it came.
pub proof fn law_identity_untouched(raw: Seq<u8>)
    ensures
        decoded(Coding::Identity, raw) == Ok::<Seq<u8>, (ErrorKind, Seq<char>)>(raw),
{
}

/// Different credentials are sent differently.
pub proof fn law_credentials_told_apart(
    username1: Seq<char>,
    password1: Option<Seq<char>>,
    username2: Seq<char>,
    password2: Option<Seq<char>>,
)
    requires
        basic_credentials(username1, password1) != basic_credentials(username2, password2),
    ensures
        "Basic "@ + base64_text(encode_utf8(basic_credentials(username1, password1))) != "Basic "@
            + base64_text(encode_utf8(basic_credentials(username2, password2))),
{
    let c1 = basic_credentials(username1, password1);
    let c2 = basic_credentials(username2, password2);
    let (t1, t2) = (base64_text(encode_utf8(c1)), base64_text(encode_utf8(c2)));
    vstd::utf8::encode_utf8_decode_utf8(c1);
    vstd::utf8::encode_utf8_decode_utf8(c2);
    if "Basic "@ + t1 == "Basic "@ + t2 {
        let n = "Basic "@.len() as int;
        assert(("Basic "@ + t1).skip(n) =~= t1);
        assert(("Basic "@ + t2).skip(n) =~= t2);
        law_base64_injective(encode_utf8(c1), encode_utf8(c2));
    }
}

} // verus!
