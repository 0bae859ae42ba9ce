//! Requests and responses of a client.

use bytes::Bytes;
use http::HeaderMap;
use std::time::Duration;
use vstd::prelude::*;
use vstd::utf8::{decode_utf8, encode_utf8, valid_utf8};

use crate::client::{
    decode_body, decompression_outcome, gunzipped, inflated, reason_phrase, status_error, unzlibbed,
    Client, Coding, RequestBuilder, Response,
};
use crate::encoding::{base64_encode, utf8_problem};
use crate::error::{ErrorKind, OxiHttpError};
use crate::exchange::RetryPolicy;
use crate::headers::{get_str, header_entries, valid_value};
use crate::http_types::Method;
use crate::laws::basics::token;
use crate::multipart::MultipartBuilder;
use crate::octets::bytes_of;
use crate::text::{parse_number, string_texts, to_decimal, to_lower};
use crate::uri::Uri;

verus! {

/// The text of a compression is `gzip` or `deflate`, in any case of letters; nothing else is
/// undone, and nothing at all where that is off.
pub proof fn law_coding<B>(r: Response<B>, text: Option<&str>, small: String, coding: Coding)
    requires
        call_ensures(Response::<B>::coding, (&r,), coding),
        call_ensures(get_str, (&r.headers, "content-encoding"), text),
        text matches Some(t) ==> call_ensures(to_lower, (t,), small),
    ensures
        coding == Coding::Gzip <==> r.decompress && text is Some && small@ == "gzip"@,
        coding == Coding::Deflate <==> r.decompress && text is Some && small@ == "deflate"@,
{
    reveal_strlit("gzip");
    reveal_strlit("deflate");
    assert("gzip"@.len() != "deflate"@.len());
}

/// What is left of a body once a compression is undone: gzip by gzip, deflate by zlib or, where
/// that fails, as bare deflate data.
pub open spec fn undone(coding: Coding, raw: Seq<u8>) -> Result<Seq<u8>, (ErrorKind, Seq<char>)> {
    if coding == Coding::Gzip {
        match gunzipped(raw) {
            Ok(d) => Ok(d),
            Err(m) => Err((ErrorKind::Body, "gzip decompression error: "@ + m)),
        }
    } else if coding == Coding::Deflate {
        match (unzlibbed(raw), inflated(raw)) {
            (Ok(d), _) => Ok(d),
            (_, Ok(d)) => Ok(d),
            (_, Err(m)) => Err(
                (
                    ErrorKind::Body,
                    "deflate decompression error: deflate decompression error: "@ + m,
                ),
            ),
        }
    } else {
        Ok(raw)
    }
}

/// A body is the bytes that came, once their compression is undone.
pub proof fn law_body_bytes<B>(
    resp: Response<B>,
    coding: Coding,
    raw: Bytes,
    r: Result<Bytes, OxiHttpError>,
    d: Result<Bytes, OxiHttpError>,
)
    requires
        call_ensures(Response::<B>::coding, (&resp,), coding),
        call_ensures(Response::<B>::body_bytes, (&resp, raw), r),
        call_ensures(decode_body, (coding, raw), d),
    ensures
        undone(coding, bytes_of(raw)) == match r {
            Ok(b) => Ok(bytes_of(b)),
            Err(e) => Err(e@),
        },
        undone(coding, bytes_of(raw)) == match d {
            Ok(b) => Ok(bytes_of(b)),
            Err(e) => Err(e@),
        },
{
}

/// What a decompression gave is handed on; what it failed with comes behind the prefix.
pub proof fn law_decompression(
    prefix: &str,
    data: Vec<u8>,
    why: String,
    given: Result<Vec<u8>, String>,
    r: Result<Bytes, OxiHttpError>,
)
    requires
        call_ensures(decompression_outcome, (prefix, given), r),
    ensures
        given == Ok::<Vec<u8>, String>(data) ==> (r matches Ok(b) && bytes_of(b) == data@),
        given == Err::<Vec<u8>, String>(why) ==> (r matches Err(e) && e@ == (
            ErrorKind::Body,
            prefix@ + why@,
        )),
{
}

/// The text of a body is that of its bytes, where they are UTF-8.
pub proof fn law_body_text<B>(
    resp: Response<B>,
    raw: Bytes,
    bytes: Result<Bytes, OxiHttpError>,
    r: Result<String, OxiHttpError>,
)
    requires
        call_ensures(Response::<B>::body_bytes, (&resp, raw), bytes),
        call_ensures(Response::<B>::body_text, (&resp, raw), r),
    ensures
        match bytes {
            Err(e) => r matches Err(f) && f@ == e@,
            Ok(b) => if valid_utf8(bytes_of(b)) {
                r matches Ok(s) && encode_utf8(s@) == bytes_of(b)
            } else {
                r matches Err(f) && f@ == (
                    ErrorKind::Body,
                    "invalid UTF-8: "@ + utf8_problem(bytes_of(b)),
                )
            },
        },
{
    if let Ok(b) = bytes {
        if valid_utf8(bytes_of(b)) {
            vstd::utf8::decode_utf8_encode_utf8(bytes_of(b));
        }
    }
}

/// The statuses from 400 to 599 are errors, which tell the status and its phrase; any other
/// response is handed on as it is.
pub proof fn law_error_for_status<B>(
    resp: Response<B>,
    r: Result<Response<B>, OxiHttpError>,
    numeral: String,
    reason: Option<&str>,
    e: OxiHttpError,
)
    requires
        call_ensures(Response::<B>::error_for_status, (resp,), r),
        call_ensures(to_decimal, (resp.status as u64,), numeral),
        call_ensures(status_error, (resp.status, reason), e),
    ensures
        resp.status < 400 || resp.status > 599 ==> r == Ok::<Response<B>, OxiHttpError>(resp),
        400 <= resp.status <= 599 ==> (r matches Err(f) && f@ == (
            ErrorKind::Body,
            "HTTP error: "@ + numeral@ + " "@ + match reason_phrase(resp.status) {
                Some(p) => p,
                None => "Unknown"@,
            },
        )),
        e@ == (
            ErrorKind::Body,
            "HTTP error: "@ + numeral@ + " "@ + match reason {
                Some(p) => p@,
                None => "Unknown"@,
            },
        ),
{
}

/// A response gives its status, its version, its headers and its body as they are.
pub proof fn law_response_parts<B>(
    resp: Response<B>,
    status: u16,
    version: http::Version,
    headers: &HeaderMap,
    body: B,
)
    requires
        call_ensures(Response::<B>::status, (&resp,), status),
        call_ensures(Response::<B>::version, (&resp,), version),
        call_ensures(Response::<B>::headers, (&resp,), headers),
        call_ensures(Response::<B>::into_body, (resp,), body),
    ensures
        status == resp.status,
        version == resp.version,
        *headers == resp.headers,
        body == resp.body,
{
}

/// A header of a response is the text of the first value of its name, in any case of letters, where
/// that is UTF-8.
pub proof fn law_response_header<B>(
    resp: Response<B>,
    name: &str,
    small: String,
    r: Option<&str>,
)
    requires
        call_ensures(Response::<B>::header, (&resp, name), r),
        call_ensures(to_lower, (name,), small),
    ensures
        ({
            let there = token(name@) && header_entries(resp.headers).contains_key(small@);
            let bytes = header_entries(resp.headers)[small@][0];
            match r {
                Some(t) => there && encode_utf8(t@) == bytes,
                None => !(there && valid_utf8(bytes)),
            }
        }),
{
    crate::laws::basics::lemma_token(name@);
    let bytes = header_entries(resp.headers)[small@][0];
    assert(small@ == crate::text::lower(name@));
    if valid_utf8(bytes) {
        vstd::utf8::decode_utf8_encode_utf8(bytes);
    }
}

/// The length of a response is the number that `Content-Length` writes, and its type the text of
/// `Content-Type`.
pub proof fn law_response_content<B>(
    resp: Response<B>,
    text: Option<&str>,
    slice: &[char],
    number: Option<u64>,
    length: Option<u64>,
    of_type: Option<&str>,
    content_type: Option<&str>,
)
    requires
        call_ensures(Response::<B>::content_length, (&resp,), length),
        call_ensures(get_str, (&resp.headers, "content-length"), text),
        text matches Some(t) ==> slice@ == t@ && call_ensures(
            parse_number,
            (slice, u64::MAX),
            number,
        ),
        call_ensures(Response::<B>::content_type, (&resp,), content_type),
        call_ensures(get_str, (&resp.headers, "content-type"), of_type),
    ensures
        text is Some ==> length == number,
        text is None ==> length is None,
        content_type is Some <==> of_type is Some,
        content_type matches Some(c) ==> c@ == of_type->0@,
{
}

/// Whether a value is visible ASCII, spaces and tabs.
pub open spec fn shown(bytes: Seq<u8>) -> bool {
    forall|i: int| 0 <= i < bytes.len() ==> 32 <= #[trigger] bytes[i] <= 126 || bytes[i] == 9
}

/// The texts of the values that are shown, in order.
pub open spec fn shown_texts(values: Seq<Seq<u8>>) -> Seq<Seq<char>>
    decreases values.len(),
{
    if values.len() == 0 {
        Seq::empty()
    } else if shown(values.last()) {
        shown_texts(values.drop_last()).push(decode_utf8(values.last()))
    } else {
        shown_texts(values.drop_last())
    }
}

/// The cookies of a response are the texts of all its `Set-Cookie` headers, in order.
pub proof fn law_cookies<B>(resp: Response<B>, r: Vec<String>)
    requires
        call_ensures(Response::<B>::cookies, (&resp,), r),
    ensures
        Seq::new(r@.len(), |i: int| r@[i]@) == if header_entries(resp.headers).contains_key("set-cookie"@) {
            shown_texts(header_entries(resp.headers)["set-cookie"@])
        } else {
            Seq::empty()
        },
{
    reveal_strlit("set-cookie");
    let n = "set-cookie"@;
    assert(crate::text::lower(n) =~= n);
    assert(forall|i: int| 0 <= i < n.len() ==> crate::headers::token_char(#[trigger] n[i]));
    assert(crate::headers::valid_name(n));
    lemma_shown_texts(crate::headers::named_values(resp.headers, n));
    assert(Seq::new(r@.len(), |i: int| r@[i]@) =~= string_texts(r@));
}

proof fn lemma_shown_texts(values: Seq<Seq<u8>>)
    ensures
        crate::client::visible_texts(values) == shown_texts(values),
    decreases values.len(),
{
    if values.len() > 0 {
        lemma_shown_texts(values.drop_last());
        let v = values.last();
        assert(crate::headers::visible(v) <==> shown(v));
    }
}

/// Whether two requests differ in their headers alone.
pub open spec fn same_but_headers<C>(a: RequestBuilder<C>, b: RequestBuilder<C>) -> bool {
    &&& a.client == b.client
    &&& a.method == b.method
    &&& a.uri == b.uri
    &&& a.body == b.body
    &&& a.timeout == b.timeout
    &&& a.max_redirects == b.max_redirects
    &&& a.retry_policy == b.retry_policy
    &&& a.decompression == b.decompression
}

/// Setting a header makes the value its only one, under its name in small letters. A name that is
/// no token and a value with control characters are refused.
pub proof fn law_header_set<C>(
    b: RequestBuilder<C>,
    key: &str,
    small: String,
    value: &str,
    r: Result<RequestBuilder<C>, OxiHttpError>,
)
    requires
        call_ensures(RequestBuilder::<C>::header, (b, key, value), r),
        call_ensures(to_lower, (key,), small),
    ensures
        match r {
            Ok(n) => token(key@) && valid_value(encode_utf8(value@)) && header_entries(n.headers)
                == header_entries(b.headers).insert(small@, seq![encode_utf8(value@)])
                && same_but_headers(n, b),
            Err(e) => e@ == if !token(key@) {
                (ErrorKind::InvalidHeader, "invalid HTTP header name"@)
            } else {
                (ErrorKind::InvalidHeader, "failed to parse header value"@)
            } && !(token(key@) && valid_value(encode_utf8(value@))),
        },
{
    crate::laws::basics::lemma_token(key@);
    assert(small@ == crate::text::lower(key@));
}

/// Setting the headers of a map replaces those of the same names and keeps the others.
pub proof fn law_headers_set<C>(
    b: RequestBuilder<C>,
    map: HeaderMap,
    r: RequestBuilder<C>,
    name: Seq<char>,
)
    requires
        call_ensures(RequestBuilder::<C>::headers, (b, map), r),
    ensures
        header_entries(r.headers).contains_key(name) <==> header_entries(map).contains_key(name)
            || header_entries(b.headers).contains_key(name),
        header_entries(map).contains_key(name) ==> header_entries(r.headers)[name]
            == header_entries(map)[name],
        !header_entries(map).contains_key(name) && header_entries(b.headers).contains_key(name)
            ==> header_entries(r.headers)[name] == header_entries(b.headers)[name],
        same_but_headers(r, b),
{
}

/// A bearer token stands behind `Bearer ` in `Authorization`, and is refused where it cannot be
/// sent. Basic credentials stand behind `Basic `: the Base64 text of the name, a colon and the
/// password, or nothing in its place.
pub proof fn law_credentials_set<C>(
    b: RequestBuilder<C>,
    token: &str,
    username: &str,
    password: Option<&str>,
    credentials: &[u8],
    encoded: String,
    bearer: Result<RequestBuilder<C>, OxiHttpError>,
    basic: Result<RequestBuilder<C>, OxiHttpError>,
)
    requires
        call_ensures(RequestBuilder::<C>::bearer_token, (b, token), bearer),
        call_ensures(RequestBuilder::<C>::basic_auth, (b, username, password), basic),
        credentials@ == encode_utf8(
            username@ + ":"@ + match password {
                Some(p) => p@,
                None => ""@,
            },
        ),
        call_ensures(base64_encode, (credentials,), encoded),
    ensures
        match bearer {
            Ok(n) => valid_value(encode_utf8("Bearer "@ + token@)) && header_entries(n.headers)
                == header_entries(b.headers).insert(
                "authorization"@,
                seq![encode_utf8("Bearer "@ + token@)],
            ) && same_but_headers(n, b),
            Err(e) => !valid_value(encode_utf8("Bearer "@ + token@)) && e@ == (
                ErrorKind::InvalidHeader,
                "failed to parse header value"@,
            ),
        },
        basic matches Ok(n) && header_entries(n.headers) == header_entries(b.headers).insert(
            "authorization"@,
            seq![encode_utf8("Basic "@ + encoded@)],
        ) && same_but_headers(n, b),
{
    reveal_strlit("");
    assert(""@ =~= Seq::<char>::empty());
}

/// A body of JSON or of a form is the one that is given, and `Content-Type` says which it is; a
/// body by itself and a time limit change nothing else.
pub proof fn law_bodies_set<C>(
    b: RequestBuilder<C>,
    json: Vec<u8>,
    form: Bytes,
    duration: Duration,
    r: (RequestBuilder<C>, RequestBuilder<C>, RequestBuilder<C>, RequestBuilder<C>),
)
    requires
        call_ensures(RequestBuilder::<C>::json, (b, json), r.0),
        call_ensures(RequestBuilder::<C>::form, (b, form), r.1),
        call_ensures(RequestBuilder::<C>::body, (b, form), r.2),
        call_ensures(RequestBuilder::<C>::timeout, (b, duration), r.3),
    ensures
        bytes_of(r.0.body) == json@,
        header_entries(r.0.headers) == header_entries(b.headers).insert(
            "content-type"@,
            seq![encode_utf8("application/json"@)],
        ),
        same_but_headers(r.0, RequestBuilder { body: r.0.body, ..b }),
        r.1.body == form,
        header_entries(r.1.headers) == header_entries(b.headers).insert(
            "content-type"@,
            seq![encode_utf8("application/x-www-form-urlencoded"@)],
        ),
        same_but_headers(r.1, RequestBuilder { body: r.1.body, ..b }),
        r.2.body == form && r.2.headers == b.headers && same_but_headers(
            r.2,
            RequestBuilder { body: form, ..b },
        ),
        r.3.timeout == Some(duration) && r.3.headers == b.headers && same_but_headers(
            r.3,
            RequestBuilder { timeout: Some(duration), ..b },
        ),
{
}

/// A multipart body is the one that the form builds, and `Content-Type` is the form's where none is
/// set and it can be sent.
pub proof fn law_multipart_set<C>(
    b: RequestBuilder<C>,
    form: MultipartBuilder,
    body: Bytes,
    content_type: String,
    r: RequestBuilder<C>,
)
    requires
        call_ensures(RequestBuilder::<C>::multipart, (b, form), r),
        call_ensures(MultipartBuilder::build, (form,), body),
        call_ensures(MultipartBuilder::content_type, (&form,), content_type),
    ensures
        bytes_of(r.body) == bytes_of(body),
        header_entries(b.headers).contains_key("content-type"@) || !valid_value(
            encode_utf8(content_type@),
        ) ==> header_entries(r.headers) == header_entries(b.headers),
        !header_entries(b.headers).contains_key("content-type"@) && valid_value(
            encode_utf8(content_type@),
        ) ==> header_entries(r.headers) == header_entries(b.headers).insert(
            "content-type"@,
            seq![encode_utf8(content_type@)],
        ),
        same_but_headers(r, RequestBuilder { body: r.body, ..b }),
{
}

/// What a new request of a client is: to the URL, with the client's settings, each of its default
/// headers once, with the last value, no body and no time limit.
pub open spec fn fresh_request<C: Clone>(
    client: Client<C>,
    name: Seq<char>,
    uri: Result<Uri, OxiHttpError>,
    r: Result<RequestBuilder<C>, OxiHttpError>,
) -> bool {
    match uri {
        Err(e) => r matches Err(f) && f@ == e@,
        Ok(u) => r matches Ok(b) && {
            &&& b.method@ == name
            &&& b.uri@ == u@
            &&& bytes_of(b.body).len() == 0
            &&& b.timeout is None
            &&& b.max_redirects == client.max_redirects
            &&& b.retry_policy == client.retry_policy
            &&& b.decompression == client.decompression
            &&& cloned(client.inner, b.client)
            &&& forall|n: Seq<char>|
                #![trigger header_entries(b.headers).contains_key(n)]
                header_entries(b.headers).contains_key(n) <==> header_entries(
                    client.default_headers,
                ).contains_key(n) && header_entries(client.default_headers)[n].len() > 0
            &&& forall|n: Seq<char>|
                #![trigger header_entries(b.headers)[n]]
                header_entries(b.headers).contains_key(n) ==> header_entries(b.headers)[n] == seq![
                    header_entries(client.default_headers)[n].last(),
                ]
        },
    }
}

/// A request of a client is made with its method, by its name or through the method that is called
/// after it.
pub proof fn law_new_requests<C: Clone>(
    c: Client<C>,
    method: Method,
    url: &str,
    uri: Result<Uri, OxiHttpError>,
    any: Result<RequestBuilder<C>, OxiHttpError>,
    r: (
        Result<RequestBuilder<C>, OxiHttpError>,
        Result<RequestBuilder<C>, OxiHttpError>,
        Result<RequestBuilder<C>, OxiHttpError>,
        Result<RequestBuilder<C>, OxiHttpError>,
        Result<RequestBuilder<C>, OxiHttpError>,
        Result<RequestBuilder<C>, OxiHttpError>,
    ),
)
    requires
        call_ensures(Uri::from_text, (url,), uri),
        call_ensures(Client::<C>::request_builder, (&c, method, url), any),
        call_ensures(Client::<C>::get, (&c, url), r.0),
        call_ensures(Client::<C>::post, (&c, url), r.1),
        call_ensures(Client::<C>::put, (&c, url), r.2),
        call_ensures(Client::<C>::delete, (&c, url), r.3),
        call_ensures(Client::<C>::patch, (&c, url), r.4),
        call_ensures(Client::<C>::head, (&c, url), r.5),
    ensures
        fresh_request(c, method@, uri, any),
        fresh_request(c, "GET"@, uri, r.0),
        fresh_request(c, "POST"@, uri, r.1),
        fresh_request(c, "PUT"@, uri, r.2),
        fresh_request(c, "DELETE"@, uri, r.3),
        fresh_request(c, "PATCH"@, uri, r.4),
        fresh_request(c, "HEAD"@, uri, r.5),
{
}

/// A client over another pool has all settings of the first; and a client tells its settings.
pub proof fn law_client_settings<C, D>(
    c: Client<C>,
    inner: D,
    r: Client<D>,
    policy: Option<&RetryPolicy>,
    connect: Option<Duration>,
    read: Option<Duration>,
)
    requires
        call_ensures(Client::<C>::with_inner::<D>, (&c, inner), r),
        call_ensures(Client::<C>::retry_policy, (&c,), policy),
        call_ensures(Client::<C>::connect_timeout, (&c,), connect),
        call_ensures(Client::<C>::read_timeout, (&c,), read),
    ensures
        r.inner == inner,
        r.max_redirects == c.max_redirects,
        r.retry_policy == c.retry_policy,
        header_entries(r.default_headers) == header_entries(c.default_headers),
        r.connect_timeout == c.connect_timeout,
        r.read_timeout == c.read_timeout,
        r.decompression == c.decompression,
        policy is Some <==> c.retry_policy is Some,
        policy matches Some(p) ==> c.retry_policy == Some(*p),
        connect == c.connect_timeout,
        read == c.read_timeout,
{
}

} // verus!
