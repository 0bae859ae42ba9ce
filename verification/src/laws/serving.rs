//! Middleware: other origins, limits and the order in which they are asked.

use http::HeaderMap;
use std::time::Duration;
use vstd::prelude::*;
use vstd::utf8::encode_utf8;

use crate::error::{ErrorKind, OxiHttpError};
use crate::headers::{get_str, header_entries, no_entries, valid_value};
use crate::http_types::{Method, Reply};
use crate::middleware::{
    too_many_requests, BodyLimitConfig, CorsConfig, MiddlewarePipeline, PreStep, TimeoutConfig,
};
use crate::text::{decimal, joined, parse_number, string_texts, to_decimal};

verus! {

/// The characters of a text that may be there.
pub open spec fn text_of(t: Option<&str>) -> Option<Seq<char>> {
    match t {
        Some(t) => Some(t@),
        None => None,
    }
}

/// Whether a list of texts holds one.
pub open spec fn lists(list: Seq<String>, text: Seq<char>) -> bool {
    exists|i: int| 0 <= i < list.len() && (#[trigger] list[i])@ == text
}

/// Whether a response to a request from `origin` tells what is allowed.
pub open spec fn allows(c: CorsConfig, origin: Option<Seq<char>>) -> bool {
    lists(c.allowed_origins@, "*"@) || (origin matches Some(o) && lists(c.allowed_origins@, o))
}

/// Whether a header has the text as its only value, or is as before where the text is none or
/// cannot be a value.
pub open spec fn told(
    before: Map<Seq<char>, Seq<Seq<u8>>>,
    after: Map<Seq<char>, Seq<Seq<u8>>>,
    name: Seq<char>,
    text: Option<Seq<char>>,
) -> bool {
    if text matches Some(t) && valid_value(encode_utf8(t)) {
        after.contains_key(name) && after[name] == seq![encode_utf8(text->0)]
    } else {
        after.contains_key(name) == before.contains_key(name) && (before.contains_key(name)
            ==> after[name] == before[name])
    }
}

/// The texts of a list with a comma and a space between each two, where there are any.
pub open spec fn listed(list: Seq<Seq<char>>) -> Option<Seq<char>> {
    if list.len() == 0 {
        None
    } else {
        Some(joined(list, ", "@))
    }
}

/// What is told about other origins: the origin, as `*` where all are allowed; whether credentials
/// are; every method, every request header and every response header of the lists; and for how long
/// the answer may be kept. All other headers are as before.
pub open spec fn tells(
    c: CorsConfig,
    origin: Option<Seq<char>>,
    before: Map<Seq<char>, Seq<Seq<u8>>>,
    after: Map<Seq<char>, Seq<Seq<u8>>>,
) -> bool {
    &&& told(
        before,
        after,
        "access-control-allow-origin"@,
        if lists(c.allowed_origins@, "*"@) {
            Some("*"@)
        } else {
            origin
        },
    )
    &&& told(
        before,
        after,
        "access-control-allow-credentials"@,
        if c.allow_credentials {
            Some("true"@)
        } else {
            None
        },
    )
    &&& told(
        before,
        after,
        "access-control-allow-methods"@,
        listed(Seq::new(c.allowed_methods@.len(), |i: int| c.allowed_methods@[i]@)),
    )
    &&& told(
        before,
        after,
        "access-control-allow-headers"@,
        listed(Seq::new(c.allowed_headers@.len(), |i: int| c.allowed_headers@[i]@)),
    )
    &&& told(
        before,
        after,
        "access-control-expose-headers"@,
        listed(Seq::new(c.exposed_headers@.len(), |i: int| c.exposed_headers@[i]@)),
    )
    &&& told(
        before,
        after,
        "access-control-max-age"@,
        match c.max_age {
            Some(n) => Some(decimal(n as nat)),
            None => None,
        },
    )
    &&& forall|name: Seq<char>|
        name != "access-control-allow-origin"@ && name != "access-control-allow-credentials"@ && name
            != "access-control-allow-methods"@ && name != "access-control-allow-headers"@ && name
            != "access-control-expose-headers"@ && name != "access-control-max-age"@ ==> {
            &&& #[trigger] after.contains_key(name) == before.contains_key(name)
            &&& before.contains_key(name) ==> after[name] == before[name]
        }
}

proof fn lemma_tells(
    c: CorsConfig,
    origin: Option<Seq<char>>,
    before: Map<Seq<char>, Seq<Seq<u8>>>,
)
    ensures
        allows(c, origin) ==> tells(c, origin, before, c@.applied(before, origin)),
        !allows(c, origin) ==> c@.applied(before, origin) == before,
{
    crate::middleware::lemma_cors_names();
    reveal_strlit("true");
    reveal_strlit("*");
    crate::headers::lemma_plain_value("true"@);
    crate::headers::lemma_plain_value("*"@);
    if let Some(n) = c.max_age {
        crate::headers::lemma_plain_decimal(n as nat, 0);
        crate::headers::lemma_plain_value(decimal(n as nat));
    }
    lemma_lists(c.allowed_origins@, "*"@);
    if let Some(o) = origin {
        lemma_lists(c.allowed_origins@, o);
    }
    assert(Seq::new(c.allowed_methods@.len(), |i: int| c.allowed_methods@[i]@)
        =~= c@.allowed_methods);
    assert(Seq::new(c.allowed_headers@.len(), |i: int| c.allowed_headers@[i]@)
        =~= c@.allowed_headers);
    assert(Seq::new(c.exposed_headers@.len(), |i: int| c.exposed_headers@[i]@)
        =~= c@.exposed_headers);
}

proof fn lemma_lists(list: Seq<String>, text: Seq<char>)
    ensures
        string_texts(list).contains(text) <==> lists(list, text),
{
    let all = string_texts(list);
    if all.contains(text) {
        let i = choose|i: int| 0 <= i < all.len() && all[i] == text;
        assert(list[i]@ == text);
    }
    if lists(list, text) {
        let i = choose|i: int| 0 <= i < list.len() && (#[trigger] list[i])@ == text;
        assert(all[i] == text);
    }
}

/// For an origin that is allowed the headers tell all that the configuration lists; for any other
/// they stay as they are.
pub proof fn law_cors_headers(c: CorsConfig, headers: &mut HeaderMap, origin: Option<&str>)
    requires
        call_ensures(CorsConfig::apply_headers, (&c, headers, origin), ()),
    ensures
        ({
            let (before, after) = (header_entries(*old(headers)), header_entries(*final(headers)));
            if allows(c, text_of(origin)) {
                tells(c, text_of(origin), before, after)
            } else {
                after == before
            }
        }),
{
    lemma_tells(c, text_of(origin), header_entries(*old(headers)));
}

/// A preflight request is answered with 204, without a body and with what is told to its origin.
pub proof fn law_preflight(c: CorsConfig, origin: Option<&str>, r: Result<Reply, OxiHttpError>)
    requires
        call_ensures(CorsConfig::preflight_response, (&c, origin), r),
    ensures
        r matches Ok(f) && f@.status == 204 && f@.body.len() == 0 && (if allows(
            c,
            text_of(origin),
        ) {
            tells(c, text_of(origin), Map::empty(), f@.headers)
        } else {
            f@.headers == Map::<Seq<char>, Seq<Seq<u8>>>::empty()
        }),
{
    lemma_tells(c, text_of(origin), no_entries());
}

/// The permissive configuration allows every origin and every request header, the seven common
/// methods, no credentials and an age of a day. It is the one to start from.
pub proof fn law_permissive(r: CorsConfig, d: CorsConfig, origins: Vec<String>, s: CorsConfig)
    requires
        call_ensures(CorsConfig::permissive, (), r),
        call_ensures(CorsConfig::default, (), d),
        call_ensures(CorsConfig::with_origins, (origins,), s),
    ensures
        d@ == r@,
        r@.allowed_origins == seq!["*"@],
        s@.allowed_origins.len() == origins@.len(),
        forall|i: int|
            0 <= i < origins@.len() ==> s@.allowed_origins[i] == (#[trigger] origins@[i])@,
        s@.allowed_methods == r@.allowed_methods,
        s@.allowed_headers == r@.allowed_headers,
        s@.exposed_headers == r@.exposed_headers,
        s.allow_credentials == r.allow_credentials,
        s.max_age == r.max_age,
        r@.allowed_methods == seq![
            "GET"@,
            "POST"@,
            "PUT"@,
            "DELETE"@,
            "PATCH"@,
            "HEAD"@,
            "OPTIONS"@,
        ],
        r@.allowed_headers == seq!["*"@],
        r@.exposed_headers.len() == 0,
        !r.allow_credentials,
        r.max_age == Some(86400u64),
{
}

/// A body is refused exactly where its announced length is over the limit, and the refusal tells
/// both numbers.
pub proof fn law_body_limit(
    max: u64,
    limit: BodyLimitConfig,
    length: Option<u64>,
    r: Result<(), OxiHttpError>,
    length_numeral: String,
    max_numeral: String,
)
    requires
        call_ensures(BodyLimitConfig::new, (max,), limit),
        call_ensures(BodyLimitConfig::check_content_length, (&limit, length), r),
        length matches Some(n) ==> call_ensures(to_decimal, (n,), length_numeral),
        call_ensures(to_decimal, (max,), max_numeral),
    ensures
        r is Err <==> (length matches Some(n) && n > max),
        r matches Err(e) ==> e@ == (
            ErrorKind::Body,
            "request body too large: "@ + length_numeral@ + " bytes exceeds limit of "@
                + max_numeral@ + " bytes"@,
        ),
{
}

/// Requests over the rate limit get 429 and those that took too long 408, each with its phrase.
pub proof fn law_limit_replies(r: Result<Reply, OxiHttpError>, t: Result<Reply, OxiHttpError>)
    requires
        call_ensures(too_many_requests, (), r),
        call_ensures(TimeoutConfig::timeout_response, (), t),
    ensures
        r matches Ok(f) && f@.status == 429 && f@.body == encode_utf8("Too Many Requests"@)
            && f@.headers == Map::<Seq<char>, Seq<Seq<u8>>>::empty(),
        t matches Ok(f) && f@.status == 408 && f@.body == encode_utf8("Request Timeout"@)
            && f@.headers == Map::<Seq<char>, Seq<Seq<u8>>>::empty(),
{
}

/// Whether a request is refused for the length that its `Content-Length`, read as a number,
/// announces: only where there is a limit and the number is above it.
pub open spec fn too_long(limit: Option<BodyLimitConfig>, length: Option<u64>) -> bool {
    limit matches Some(l) && length matches Some(n) && n > l.max_bytes
}

/// The response to a request with a body over the limit.
pub open spec fn refuses_size(f: Reply, limit: BodyLimitConfig, length: u64) -> bool {
    &&& f@.status == 413
    &&& f@.headers == Map::<Seq<char>, Seq<Seq<u8>>>::empty()
    &&& f@.body == encode_utf8(
        "request body too large: "@ + decimal(length as nat) + " bytes exceeds limit of "@
            + decimal(limit.max_bytes as nat) + " bytes"@,
    )
}

/// The length that `Content-Length` gives, from the text of the header and the number it writes.
pub open spec fn is_length(
    headers: HeaderMap,
    text: Option<&str>,
    chars: Vec<char>,
    number: Option<u64>,
    length: Option<u64>,
) -> bool {
    &&& call_ensures(get_str, (&headers, "content-length"), text)
    &&& match text {
        Some(t) => chars@ == t@ && length == number,
        None => length is None,
    }
}

/// Before its handler a request goes past three posts, in this order: with `OPTIONS` and rules for
/// other origins it is answered as a preflight; with a rate limiter it is counted under what
/// `X-Forwarded-For` says, or `unknown`; and with a body over the limit it gets 413. Otherwise it
/// proceeds.
pub proof fn law_before_the_handler<'a, L>(
    p: MiddlewarePipeline<L>,
    method: Method,
    headers: HeaderMap,
    slice: &[char],
    texts: (Option<&'a str>, Option<&'a str>, Option<&'a str>),
    chars: Vec<char>,
    number: Option<u64>,
    length: Option<u64>,
    r: PreStep,
)
    requires
        call_ensures(MiddlewarePipeline::<L>::pre_handle, (&p, &method, &headers), r),
        call_ensures(get_str, (&headers, "origin"), texts.0),
        call_ensures(get_str, (&headers, "x-forwarded-for"), texts.1),
        slice@ == chars@,
        call_ensures(parse_number, (slice, u64::MAX), number),
        is_length(headers, texts.2, chars, number, length),
    ensures
        method@ == "OPTIONS"@ && p.cors is Some ==> (r matches PreStep::Respond(Ok(f)) && f@.status
            == 204 && f@.body.len() == 0 && (if allows(p.cors->0, text_of(texts.0)) {
            tells(p.cors->0, text_of(texts.0), Map::empty(), f@.headers)
        } else {
            f@.headers == Map::<Seq<char>, Seq<Seq<u8>>>::empty()
        })),
        !(method@ == "OPTIONS"@ && p.cors is Some) && p.rate_limiter is Some ==> (
        r matches PreStep::CheckRate(key) && key@ == match texts.1 {
            Some(v) => v@,
            None => "unknown"@,
        }),
        !(method@ == "OPTIONS"@ && p.cors is Some) && p.rate_limiter is None ==> if too_long(
            p.body_limit,
            length,
        ) {
            r matches PreStep::Respond(Ok(f)) && refuses_size(f, p.body_limit->0, length->0)
        } else {
            r is Proceed
        },
{
    if p.cors is Some {
        lemma_tells(p.cors->0, text_of(texts.0), no_entries());
    }
}

/// A request that the rate limiter does not allow gets 429; one that it allows still gets 413 where
/// its body is over the limit, and otherwise proceeds.
pub proof fn law_after_the_limiter<'a, L>(
    p: MiddlewarePipeline<L>,
    allowed: bool,
    headers: HeaderMap,
    slice: &[char],
    text: Option<&'a str>,
    chars: Vec<char>,
    number: Option<u64>,
    length: Option<u64>,
    r: Option<Result<Reply, OxiHttpError>>,
)
    requires
        call_ensures(MiddlewarePipeline::<L>::rate_checked, (&p, allowed, &headers), r),
        slice@ == chars@,
        call_ensures(parse_number, (slice, u64::MAX), number),
        is_length(headers, text, chars, number, length),
    ensures
        !allowed ==> (r matches Some(Ok(f)) && f@.status == 429 && f@.body == encode_utf8(
            "Too Many Requests"@,
        ) && f@.headers == Map::<Seq<char>, Seq<Seq<u8>>>::empty()),
        allowed ==> if too_long(p.body_limit, length) {
            r matches Some(Ok(f)) && refuses_size(f, p.body_limit->0, length->0)
        } else {
            r is None
        },
{
}

/// After its handler a response gets what is told to the origin, and keeps its status and its body.
pub proof fn law_after_the_handler<L>(
    p: MiddlewarePipeline<L>,
    resp: &mut Reply,
    origin: Option<&str>,
)
    requires
        call_ensures(MiddlewarePipeline::<L>::post_handle, (&p, resp, origin), ()),
    ensures
        ({
            let (before, after) = ((*old(resp))@, (*final(resp))@);
            &&& after.status == before.status
            &&& after.body == before.body
            &&& if p.cors is Some && allows(p.cors->0, text_of(origin)) {
                tells(p.cors->0, text_of(origin), before.headers, after.headers)
            } else {
                after.headers == before.headers
            }
        }),
{
    if p.cors is Some {
        lemma_tells(p.cors->0, text_of(origin), (*old(resp))@.headers);
    }
}

/// A pipeline starts without anything, and each part that is added is there and changes no other.
pub proof fn law_pipeline_parts<L>(
    empty: MiddlewarePipeline<L>,
    default: MiddlewarePipeline<L>,
    limit: TimeoutConfig,
    p: MiddlewarePipeline<L>,
    cors: CorsConfig,
    max: u64,
    limiter: L,
    duration: Duration,
    r: (MiddlewarePipeline<L>, MiddlewarePipeline<L>, MiddlewarePipeline<L>, MiddlewarePipeline<L>),
)
    requires
        call_ensures(MiddlewarePipeline::<L>::new, (), empty),
        call_ensures(MiddlewarePipeline::<L>::default, (), default),
        call_ensures(TimeoutConfig::new, (duration,), limit),
        call_ensures(MiddlewarePipeline::<L>::with_cors, (p, cors), r.0),
        call_ensures(MiddlewarePipeline::<L>::with_body_limit, (p, max), r.1),
        call_ensures(MiddlewarePipeline::<L>::with_rate_limiter, (p, limiter), r.2),
        call_ensures(MiddlewarePipeline::<L>::with_timeout, (p, duration), r.3),
    ensures
        empty.cors is None && empty.body_limit is None && empty.rate_limiter is None
            && empty.timeout is None,
        default.cors is None && default.body_limit is None && default.rate_limiter is None
            && default.timeout is None,
        limit.duration == duration,
        r.0.cors == Some(cors) && r.0.body_limit == p.body_limit && r.0.rate_limiter
            == p.rate_limiter && r.0.timeout == p.timeout,
        r.1.body_limit matches Some(l) && l.max_bytes == max && r.1.cors == p.cors
            && r.1.rate_limiter == p.rate_limiter && r.1.timeout == p.timeout,
        r.2.rate_limiter == Some(limiter) && r.2.cors == p.cors && r.2.body_limit == p.body_limit
            && r.2.timeout == p.timeout,
        r.3.timeout matches Some(t) && t.duration == duration && r.3.cors == p.cors
            && r.3.body_limit == p.body_limit && r.3.rate_limiter == p.rate_limiter,
{
}

} // verus!
