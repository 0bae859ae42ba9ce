//! Middleware of a server: CORS, limits on the size of bodies, rate limits and time limits.

use http::HeaderMap;
use std::time::Duration;
use vstd::prelude::*;
use vstd::utf8::encode_utf8;

use crate::error::{ErrorKind, OxiHttpError};
use crate::headers::{
    get_str, has_room, header_entries, header_str, known_name, lemma_known_names,
    lemma_plain_decimal, lemma_plain_value, no_entries, opt_text, set_text, valid_value,
    with_header,
};
use crate::http_types::{plain_reply, Method, Reply, ReplyView};
use crate::octets::{bytes_from_static, bytes_from_string};
use crate::text::{
    chars_of, decimal, join, joined, number_of, parse_number, same_text, string_texts, to_decimal,
};

verus! {

// ---------------------------------------------------------------------------
// CORS
// ---------------------------------------------------------------------------

/// How requests from other origins are treated.
#[derive(Debug, Clone)]
pub struct CorsConfig {
    /// The origins that are allowed; `*` stands for all.
    pub allowed_origins: Vec<String>,
    /// The methods that are allowed.
    pub allowed_methods: Vec<Method>,
    /// The request headers that are allowed.
    pub allowed_headers: Vec<String>,
    /// The response headers that clients may see.
    pub exposed_headers: Vec<String>,
    /// Whether credentials (cookies, authorization) are allowed.
    pub allow_credentials: bool,
    /// For how many seconds the answer to a preflight request may be kept.
    pub max_age: Option<u64>,
}

/// How requests from other origins are treated, in texts.
pub struct CorsView {
    pub allowed_origins: Seq<Seq<char>>,
    pub allowed_methods: Seq<Seq<char>>,
    pub allowed_headers: Seq<Seq<char>>,
    pub exposed_headers: Seq<Seq<char>>,
    pub allow_credentials: bool,
    pub max_age: Option<u64>,
}

/// The names of methods.
pub open spec fn method_texts(list: Seq<Method>) -> Seq<Seq<char>> {
    list.map_values(|m: Method| m@)
}

impl View for CorsConfig {
    type V = CorsView;

    open spec fn view(&self) -> CorsView {
        CorsView {
            allowed_origins: string_texts(self.allowed_origins@),
            allowed_methods: method_texts(self.allowed_methods@),
            allowed_headers: string_texts(self.allowed_headers@),
            exposed_headers: string_texts(self.exposed_headers@),
            allow_credentials: self.allow_credentials,
            max_age: self.max_age,
        }
    }
}

/// Everything is allowed, but for credentials; preflight answers may be kept for a day.
pub open spec fn permissive_cors() -> CorsView {
    CorsView {
        allowed_origins: seq!["*"@],
        allowed_methods: seq![
            "GET"@,
            "POST"@,
            "PUT"@,
            "DELETE"@,
            "PATCH"@,
            "HEAD"@,
            "OPTIONS"@,
        ],
        allowed_headers: seq!["*"@],
        exposed_headers: seq![],
        allow_credentials: false,
        max_age: Some(86400),
    }
}

/// The entries with a header, where its text can be a value; otherwise as they are.
pub open spec fn with_valid_header(
    entries: Map<Seq<char>, Seq<Seq<u8>>>,
    name: Seq<char>,
    text: Seq<char>,
) -> Map<Seq<char>, Seq<Seq<u8>>> {
    if valid_value(encode_utf8(text)) {
        with_header(entries, name, text)
    } else {
        entries
    }
}

/// The entries with a header that lists texts, where there are any and their list can be a value.
pub open spec fn with_list_header(
    entries: Map<Seq<char>, Seq<Seq<u8>>>,
    name: Seq<char>,
    list: Seq<Seq<char>>,
) -> Map<Seq<char>, Seq<Seq<u8>>> {
    if list.len() > 0 {
        with_valid_header(entries, name, joined(list, ", "@))
    } else {
        entries
    }
}

impl CorsView {
    /// The origin that is told to be allowed for a request from `origin`, if it is.
    pub open spec fn granted(self, origin: Option<Seq<char>>) -> Option<Seq<char>> {
        if self.allowed_origins.contains("*"@) {
            Some("*"@)
        } else {
            match origin {
                Some(o) => if self.allowed_origins.contains(o) {
                    Some(o)
                } else {
                    None
                },
                None => None,
            }
        }
    }

    /// The headers of a response to a request from `origin`. Those for an origin that is not
    /// allowed stay as they are.
    pub open spec fn applied(
        self,
        entries: Map<Seq<char>, Seq<Seq<u8>>>,
        origin: Option<Seq<char>>,
    ) -> Map<Seq<char>, Seq<Seq<u8>>> {
        match self.granted(origin) {
            None => entries,
            Some(o) => {
                let e1 = with_valid_header(entries, "access-control-allow-origin"@, o);
                let e2 = if self.allow_credentials {
                    with_header(e1, "access-control-allow-credentials"@, "true"@)
                } else {
                    e1
                };
                let e3 = with_list_header(
                    e2,
                    "access-control-allow-methods"@,
                    self.allowed_methods,
                );
                let e4 = with_list_header(
                    e3,
                    "access-control-allow-headers"@,
                    self.allowed_headers,
                );
                let e5 = with_list_header(
                    e4,
                    "access-control-expose-headers"@,
                    self.exposed_headers,
                );
                match self.max_age {
                    Some(n) => with_header(e5, "access-control-max-age"@, decimal(n as nat)),
                    None => e5,
                }
            },
        }
    }
}

/// Whether a list holds a text.
fn contains_text(list: &Vec<String>, text: &str) -> (r: bool)
    ensures
        r == string_texts(list@).contains(text@),
{
    let ghost all = string_texts(list@);
    let mut i: usize = 0;
    while i < list.len()
        invariant
            i <= list@.len(),
            all == string_texts(list@),
            forall|j: int| 0 <= j < i ==> all[j] != text@,
        decreases list@.len() - i,
    {
        assert(all[i as int] == list@[i as int]@);
        if same_text(list[i].as_str(), text) {
            return true;
        }
        i += 1;
    }
    assert(!all.contains(text@));
    false
}

/// The names of methods as a list of texts.
fn method_names(list: &Vec<Method>) -> (r: Vec<String>)
    ensures
        string_texts(r@) == method_texts(list@),
{
    let mut out: Vec<String> = Vec::new();
    let mut i: usize = 0;
    while i < list.len()
        invariant
            i <= list@.len(),
            out@.len() == i,
            forall|j: int| 0 <= j < i ==> (#[trigger] out@[j])@ == list@[j]@,
        decreases list@.len() - i,
    {
        out.push(list[i].as_str().to_owned());
        i += 1;
    }
    assert(string_texts(out@) =~= method_texts(list@));
    out
}

/// Sets a header that lists texts.
fn set_list(headers: &mut HeaderMap, name: &'static str, list: &Vec<String>)
    requires
        has_room(*old(headers), 1),
        known_name(name@),
    ensures
        header_entries(*final(headers)) == with_list_header(
            header_entries(*old(headers)),
            name@,
            string_texts(list@),
        ),
{
    assert(string_texts(list@).len() == list@.len());
    if list.len() > 0 {
        let text = join(list, ", ");
        set_text(headers, name, text.as_str());
    }
}

impl CorsConfig {
    /// Allows all origins, the common methods and all headers.
    pub fn permissive() -> (r: Self)
        ensures
            r@ == permissive_cors(),
    {
        let mut origins: Vec<String> = Vec::new();
        origins.push("*".to_owned());
        let mut headers: Vec<String> = Vec::new();
        headers.push("*".to_owned());
        let mut methods: Vec<Method> = Vec::new();
        methods.push(Method::Get);
        methods.push(Method::Post);
        methods.push(Method::Put);
        methods.push(Method::Delete);
        methods.push(Method::Patch);
        methods.push(Method::Head);
        methods.push(Method::Options);
        let r = CorsConfig {
            allowed_origins: origins,
            allowed_methods: methods,
            allowed_headers: headers,
            exposed_headers: Vec::new(),
            allow_credentials: false,
            max_age: Some(86400),
        };
        proof {
            assert(r@.allowed_origins =~= permissive_cors().allowed_origins);
            assert(r@.allowed_methods =~= permissive_cors().allowed_methods);
            assert(r@.allowed_headers =~= permissive_cors().allowed_headers);
            assert(r@.exposed_headers =~= permissive_cors().exposed_headers);
        }
        r
    }

    /// Allows the given origins, and otherwise what [`CorsConfig::permissive`] allows.
    pub fn with_origins(origins: Vec<String>) -> (r: Self)
        ensures
            r@ == (CorsView { allowed_origins: string_texts(origins@), ..permissive_cors() }),
    {
        CorsConfig { allowed_origins: origins, ..CorsConfig::permissive() }
    }

    /// Adds the headers of a response to a request from `origin`.
    ///
    /// Nothing is added for an origin that is not allowed.
    pub fn apply_headers(&self, headers: &mut HeaderMap, origin: Option<&str>)
        requires
            has_room(*old(headers), 6),
        ensures
            header_entries(*final(headers)) == self@.applied(
                header_entries(*old(headers)),
                opt_text(origin),
            ),
    {
        proof {
            lemma_known_names();
            reveal_strlit("true");
            lemma_plain_value("true"@);
        }
        let granted: &str = if contains_text(&self.allowed_origins, "*") {
            "*"
        } else {
            match origin {
                Some(o) => {
                    if !contains_text(&self.allowed_origins, o) {
                        return;
                    }
                    o
                },
                None => return,
            }
        };
        set_text(headers, "access-control-allow-origin", granted);
        if self.allow_credentials {
            set_text(headers, "access-control-allow-credentials", "true");
        }
        let methods = method_names(&self.allowed_methods);
        set_list(headers, "access-control-allow-methods", &methods);
        set_list(headers, "access-control-allow-headers", &self.allowed_headers);
        set_list(headers, "access-control-expose-headers", &self.exposed_headers);
        if let Some(n) = self.max_age {
            let text = to_decimal(n);
            proof {
                lemma_plain_decimal(n as nat, 0);
                lemma_plain_value(text@);
            }
            set_text(headers, "access-control-max-age", text.as_str());
        }
    }

    /// The answer to a preflight request: 204 with the headers for the origin.
    pub fn preflight_response(&self, origin: Option<&str>) -> (r: Result<Reply, OxiHttpError>)
        ensures
            r matches Ok(f) && f@ == (ReplyView {
                status: 204,
                headers: self@.applied(no_entries(), opt_text(origin)),
                body: Seq::empty(),
            }),
    {
        let mut reply = Reply::empty(204);
        self.apply_headers(&mut reply.headers, origin);
        Ok(reply)
    }
}

impl Default for CorsConfig {
    fn default() -> (r: Self)
        ensures
            r@ == permissive_cors(),
    {
        CorsConfig::permissive()
    }
}

// ---------------------------------------------------------------------------
// Size of bodies
// ---------------------------------------------------------------------------

/// A limit on the size of request bodies.
#[derive(Debug, Clone, Copy)]
pub struct BodyLimitConfig {
    /// The largest size in bytes.
    pub max_bytes: u64,
}

/// The refusal of a body that is too large.
pub open spec fn body_too_large(len: u64, max: u64) -> Seq<char> {
    "request body too large: "@ + decimal(len as nat) + " bytes exceeds limit of "@ + decimal(
        max as nat,
    ) + " bytes"@
}

impl BodyLimitConfig {
    /// A limit of so many bytes.
    pub fn new(max_bytes: u64) -> (r: Self)
        ensures
            r.max_bytes == max_bytes,
    {
        BodyLimitConfig { max_bytes }
    }

    /// Refuses a body whose announced length is over the limit.
    pub fn check_content_length(&self, content_length: Option<u64>) -> (r: Result<
        (),
        OxiHttpError,
    >)
        ensures
            r is Ok <==> (content_length matches Some(len) ==> len <= self.max_bytes),
            r matches Err(e) ==> e@ == (
                ErrorKind::Body,
                body_too_large(content_length->0, self.max_bytes),
            ),
    {
        if let Some(len) = content_length {
            if len > self.max_bytes {
                let mut m = "request body too large: ".to_owned();
                m.append(to_decimal(len).as_str());
                m.append(" bytes exceeds limit of ");
                m.append(to_decimal(self.max_bytes).as_str());
                m.append(" bytes");
                return Err(OxiHttpError::Body(m));
            }
        }
        Ok(())
    }
}

// ---------------------------------------------------------------------------
// Rates and times
// ---------------------------------------------------------------------------

/// The response to a request over the rate limit (429).
pub fn too_many_requests() -> (r: Result<Reply, OxiHttpError>)
    ensures
        r matches Ok(f) && f@ == plain_reply(429, encode_utf8("Too Many Requests"@)),
{
    Ok(Reply::new(429, bytes_from_static("Too Many Requests")))
}

/// A limit on the time that a request may take.
#[derive(Debug, Clone, Copy)]
pub struct TimeoutConfig {
    /// The longest time.
    pub duration: Duration,
}

impl TimeoutConfig {
    /// A limit of the given length.
    pub fn new(duration: Duration) -> (r: Self)
        ensures
            r.duration == duration,
    {
        TimeoutConfig { duration }
    }

    /// The response to a request that took too long (408).
    pub fn timeout_response() -> (r: Result<Reply, OxiHttpError>)
        ensures
            r matches Ok(f) && f@ == plain_reply(408, encode_utf8("Request Timeout"@)),
    {
        Ok(Reply::new(408, bytes_from_static("Request Timeout")))
    }
}

// ---------------------------------------------------------------------------
// The pipeline
// ---------------------------------------------------------------------------

/// The middleware of a server. `L` is the rate limiter.
#[derive(Debug, Clone)]
pub struct MiddlewarePipeline<L> {
    /// How requests from other origins are treated.
    pub cors: Option<CorsConfig>,
    /// The limit on the size of request bodies.
    pub body_limit: Option<BodyLimitConfig>,
    /// The rate limiter.
    pub rate_limiter: Option<L>,
    /// The limit on the time that a request may take.
    pub timeout: Option<TimeoutConfig>,
}

/// What to do with a request before it reaches its handler.
#[derive(Debug)]
pub enum PreStep {
    /// Answer it at once.
    Respond(Result<Reply, OxiHttpError>),
    /// Ask the rate limiter for this key, and go on with [`MiddlewarePipeline::rate_checked`].
    CheckRate(String),
    /// Hand it on to its handler.
    Proceed,
}

/// The key that requests are counted under: the address that `X-Forwarded-For` gives.
pub open spec fn rate_key(m: HeaderMap) -> Seq<char> {
    match header_str(m, "x-forwarded-for"@) {
        Some(v) => v,
        None => "unknown"@,
    }
}

/// The length that `Content-Length` announces.
pub open spec fn announced_length(m: HeaderMap) -> Option<nat> {
    match header_str(m, "content-length"@) {
        Some(v) => number_of(v, u64::MAX as nat),
        None => None,
    }
}

impl<L> MiddlewarePipeline<L> {
    /// The response to a request with a body that is too large, if it is.
    pub open spec fn size_refusal(self, m: HeaderMap) -> Option<ReplyView> {
        match (self.body_limit, announced_length(m)) {
            (Some(limit), Some(len)) => if len > limit.max_bytes {
                Some(
                    plain_reply(
                        413,
                        encode_utf8(body_too_large(len as u64, limit.max_bytes)),
                    ),
                )
            } else {
                None
            },
            _ => None,
        }
    }

    /// A pipeline that does nothing.
    pub fn new() -> (r: Self)
        ensures
            r.cors is None,
            r.body_limit is None,
            r.rate_limiter is None,
            r.timeout is None,
    {
        MiddlewarePipeline { cors: None, body_limit: None, rate_limiter: None, timeout: None }
    }

    /// Adds CORS.
    pub fn with_cors(self, config: CorsConfig) -> (r: Self)
        ensures
            r == (MiddlewarePipeline { cors: Some(config), ..self }),
    {
        MiddlewarePipeline { cors: Some(config), ..self }
    }

    /// Adds a limit on the size of request bodies.
    pub fn with_body_limit(self, max_bytes: u64) -> (r: Self)
        ensures
            r == (MiddlewarePipeline { body_limit: Some(BodyLimitConfig { max_bytes }), ..self }),
    {
        MiddlewarePipeline { body_limit: Some(BodyLimitConfig::new(max_bytes)), ..self }
    }

    /// Adds a rate limiter.
    pub fn with_rate_limiter(self, limiter: L) -> (r: Self)
        ensures
            r == (MiddlewarePipeline { rate_limiter: Some(limiter), ..self }),
    {
        MiddlewarePipeline { rate_limiter: Some(limiter), ..self }
    }

    /// Adds a limit on the time that a request may take.
    pub fn with_timeout(self, duration: Duration) -> (r: Self)
        ensures
            r == (MiddlewarePipeline { timeout: Some(TimeoutConfig { duration }), ..self }),
    {
        MiddlewarePipeline { timeout: Some(TimeoutConfig::new(duration)), ..self }
    }

    /// Decides about a request before it reaches its handler.
    ///
    /// A preflight request is answered; then the rate limit counts; then the announced length.
    pub fn pre_handle(&self, method: &Method, headers: &HeaderMap) -> (r: PreStep)
        ensures
            if method@ == "OPTIONS"@ && self.cors is Some {
                r matches PreStep::Respond(Ok(f)) && f@ == (ReplyView {
                    status: 204,
                    headers: self.cors->0@.applied(
                        no_entries(),
                        header_str(*headers, "origin"@),
                    ),
                    body: Seq::empty(),
                })
            } else if self.rate_limiter is Some {
                r matches PreStep::CheckRate(key) && key@ == rate_key(*headers)
            } else {
                match self.size_refusal(*headers) {
                    Some(f) => r matches PreStep::Respond(Ok(g)) && g@ == f,
                    None => r is Proceed,
                }
            },
    {
        if method.is_named("OPTIONS") {
            if let Some(cors) = &self.cors {
                let origin = get_str(headers, "origin");
                return PreStep::Respond(cors.preflight_response(origin));
            }
        }
        if self.rate_limiter.is_some() {
            let key = match get_str(headers, "x-forwarded-for") {
                Some(v) => v,
                None => "unknown",
            };
            return PreStep::CheckRate(key.to_owned());
        }
        match self.check_size(headers) {
            Some(f) => PreStep::Respond(Ok(f)),
            None => PreStep::Proceed,
        }
    }

    /// Decides about a request once the rate limiter was asked: `None` hands it on.
    pub fn rate_checked(&self, allowed: bool, headers: &HeaderMap) -> (r: Option<
        Result<Reply, OxiHttpError>,
    >)
        ensures
            if !allowed {
                r matches Some(Ok(f)) && f@ == plain_reply(429, encode_utf8("Too Many Requests"@))
            } else {
                match self.size_refusal(*headers) {
                    Some(f) => r matches Some(Ok(g)) && g@ == f,
                    None => r is None,
                }
            },
    {
        if !allowed {
            return Some(too_many_requests());
        }
        match self.check_size(headers) {
            Some(f) => Some(Ok(f)),
            None => None,
        }
    }

    /// The response to a request with a body that is too large, if it is.
    fn check_size(&self, headers: &HeaderMap) -> (r: Option<Reply>)
        ensures
            match self.size_refusal(*headers) {
                Some(f) => r matches Some(g) && g@ == f,
                None => r is None,
            },
    {
        match &self.body_limit {
            None => None,
            Some(limit) => {
                let length: Option<u64> = match get_str(headers, "content-length") {
                    Some(v) => {
                        let chars = chars_of(v);
                        parse_number(chars.as_slice(), u64::MAX)
                    },
                    None => None,
                };
                match limit.check_content_length(length) {
                    Ok(()) => None,
                    Err(e) => Some(
                        Reply::new(413, bytes_from_string(e.message().to_owned())),
                    ),
                }
            },
        }
    }

    /// Adds the headers for other origins to a response.
    pub fn post_handle(&self, resp: &mut Reply, origin: Option<&str>)
        requires
            has_room(old(resp).headers, 6),
        ensures
            final(resp)@ == (match self.cors {
                Some(cors) => ReplyView {
                    headers: cors@.applied(old(resp)@.headers, opt_text(origin)),
                    ..old(resp)@
                },
                None => old(resp)@,
            }),
    {
        if let Some(cors) = &self.cors {
            cors.apply_headers(&mut resp.headers, origin);
        }
    }
}

impl<L> Default for MiddlewarePipeline<L> {
    fn default() -> (r: Self)
        ensures
            r.cors is None,
            r.body_limit is None,
            r.rate_limiter is None,
            r.timeout is None,
    {
        MiddlewarePipeline::new()
    }
}

// ---------------------------------------------------------------------------
// Laws
// ---------------------------------------------------------------------------

/// A response for an origin that is not allowed keeps its headers; so a client of that origin sees
/// no permission.
pub proof fn law_foreign_origin_untouched(
    cors: CorsView,
    entries: Map<Seq<char>, Seq<Seq<u8>>>,
    origin: Option<Seq<char>>,
)
    requires
        !cors.allowed_origins.contains("*"@),
        origin matches Some(o) ==> !cors.allowed_origins.contains(o),
    ensures
        cors.applied(entries, origin) == entries,
{
}

/// An origin that is allowed is told so, as `*` where all are.
pub proof fn law_allowed_origin_told(
    cors: CorsView,
    entries: Map<Seq<char>, Seq<Seq<u8>>>,
    origin: Seq<char>,
)
    requires
        cors.allowed_origins.contains("*"@) || (cors.allowed_origins.contains(origin)
            && valid_value(encode_utf8(origin))),
    ensures
        ({
            let told = if cors.allowed_origins.contains("*"@) {
                "*"@
            } else {
                origin
            };
            let e = cors.applied(entries, Some(origin));
            &&& e.contains_key("access-control-allow-origin"@)
            &&& e["access-control-allow-origin"@] == seq![encode_utf8(told)]
        }),
{
    lemma_cors_names();
    reveal_strlit("*");
    lemma_plain_value("*"@);
}

/// Adding the headers twice is adding them once.
pub proof fn law_cors_idempotent(
    cors: CorsView,
    entries: Map<Seq<char>, Seq<Seq<u8>>>,
    origin: Option<Seq<char>>,
)
    ensures
        cors.applied(cors.applied(entries, origin), origin) =~= cors.applied(entries, origin),
{
    lemma_cors_names();
}

/// The names of the headers for other origins differ.
pub proof fn lemma_cors_names()
    ensures
        "access-control-allow-origin"@.len() == 27,
        "access-control-allow-credentials"@.len() == 32,
        "access-control-allow-methods"@.len() == 28,
        "access-control-allow-headers"@.len() == 28,
        "access-control-expose-headers"@.len() == 29,
        "access-control-max-age"@.len() == 22,
        "access-control-allow-methods"@ != "access-control-allow-headers"@,
{
    reveal_strlit("access-control-allow-origin");
    reveal_strlit("access-control-allow-credentials");
    reveal_strlit("access-control-allow-methods");
    reveal_strlit("access-control-allow-headers");
    reveal_strlit("access-control-expose-headers");
    reveal_strlit("access-control-max-age");
    assert("access-control-allow-methods"@[21] != "access-control-allow-headers"@[21]);
}

/// Only the headers for other origins change.
pub proof fn law_cors_frame(
    cors: CorsView,
    entries: Map<Seq<char>, Seq<Seq<u8>>>,
    origin: Option<Seq<char>>,
    name: Seq<char>,
)
    requires
        name != "access-control-allow-origin"@,
        name != "access-control-allow-credentials"@,
        name != "access-control-allow-methods"@,
        name != "access-control-allow-headers"@,
        name != "access-control-expose-headers"@,
        name != "access-control-max-age"@,
    ensures
        cors.applied(entries, origin).contains_key(name) == entries.contains_key(name),
        cors.applied(entries, origin)[name] == entries[name],
{
}

} // verus!
