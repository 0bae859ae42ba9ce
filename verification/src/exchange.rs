//! The decisions of sending a request: when to try again, and where a redirect leads.

use bytes::Bytes;
use http::HeaderMap;
use vstd::prelude::*;
use vstd::utf8::encode_utf8;

use crate::error::{ErrorKind, OxiHttpError};
use crate::headers::{
    clone_map, first_value, has_room, header_entries, lemma_known_names, lemma_plain_value,
    opt_text, set_text, valid_value, with_header,
};
use crate::http_types::Method;
use crate::octets::bytes_of;
use crate::text::{decimal, to_decimal, to_decimal_wide};
use crate::uri::{redirect_uri, resolve_redirect_uri, stays, Uri, UriView};

verus! {

// ---------------------------------------------------------------------------
// Trying again
// ---------------------------------------------------------------------------

/// When a request is tried again.
#[derive(Debug, Clone, Copy, PartialEq, Eq)]
pub struct RetryPolicy {
    /// How often it is tried again.
    pub max_retries: u32,
    /// Whether it is tried again where the connection failed.
    pub retry_on_connection_error: bool,
    /// Whether it is tried again where it took too long.
    pub retry_on_timeout: bool,
}

/// How an attempt ended.
#[derive(Debug, Clone, Copy, PartialEq, Eq, Structural)]
pub enum Attempted {
    /// With a response; `retryable` says whether its status is one to try again on.
    Answered { retryable: bool },
    /// With an error of this kind.
    Failed(ErrorKind),
}

/// Counts the attempts of a request.
#[derive(Debug, Clone, Copy)]
pub struct Attempts {
    policy: Option<RetryPolicy>,
    attempt: u32,
}

/// How often a request was tried before, out of how many times.
pub struct AttemptsView {
    pub policy: Option<RetryPolicy>,
    /// The number of the current attempt, from zero.
    pub attempt: nat,
}

/// What to do after an attempt.
#[derive(Debug, Clone, Copy, PartialEq, Eq, Structural)]
pub enum Verdict {
    /// Hand on what it ended with.
    Finish,
    /// Wait as long as is due after the attempt with this number, and try again.
    RetryAfter(u32),
}

/// Whether an attempt that ended so is one to repeat, as long as there are attempts left.
pub open spec fn worth_retrying(p: RetryPolicy, a: Attempted) -> bool {
    match a {
        Attempted::Answered { retryable } => retryable,
        Attempted::Failed(ErrorKind::Hyper) => p.retry_on_connection_error,
        Attempted::Failed(ErrorKind::Io) => p.retry_on_connection_error,
        Attempted::Failed(ErrorKind::Timeout) => p.retry_on_timeout,
        Attempted::Failed(_) => false,
    }
}

impl AttemptsView {
    /// How many attempts there are at most.
    pub open spec fn max_attempts(self) -> nat {
        match self.policy {
            Some(p) => p.max_retries as nat + 1,
            None => 1,
        }
    }

    /// Whether the request is tried again after an attempt that ended so.
    pub open spec fn retries(self, a: Attempted) -> bool {
        self.policy matches Some(p) && self.attempt + 1 < self.max_attempts() && worth_retrying(p, a)
    }
}

impl View for Attempts {
    type V = AttemptsView;

    closed spec fn view(&self) -> AttemptsView {
        AttemptsView { policy: self.policy, attempt: self.attempt as nat }
    }
}

impl Attempts {
    /// Before the first attempt.
    pub fn new(policy: Option<RetryPolicy>) -> (r: Self)
        ensures
            r@ == (AttemptsView { policy, attempt: 0 }),
    {
        Attempts { policy, attempt: 0 }
    }

    /// Decides what to do after an attempt.
    pub fn after(&mut self, a: Attempted) -> (r: Verdict)
        requires
            old(self)@.attempt < old(self)@.max_attempts(),
        ensures
            if old(self)@.retries(a) {
                r == Verdict::RetryAfter(old(self)@.attempt as u32) && final(self)@ == (
                AttemptsView { attempt: old(self)@.attempt + 1, ..old(self)@ })
            } else {
                r == Verdict::Finish && final(self)@ == old(self)@
            },
            final(self)@.attempt < final(self)@.max_attempts(),
    {
        match self.policy {
            None => Verdict::Finish,
            Some(p) => {
                let again = match a {
                    Attempted::Answered { retryable } => retryable,
                    Attempted::Failed(ErrorKind::Hyper) => p.retry_on_connection_error,
                    Attempted::Failed(ErrorKind::Io) => p.retry_on_connection_error,
                    Attempted::Failed(ErrorKind::Timeout) => p.retry_on_timeout,
                    Attempted::Failed(_) => false,
                };
                if again && self.attempt < p.max_retries {
                    let n: u32 = self.attempt;
                    self.attempt = n + 1;
                    Verdict::RetryAfter(n)
                } else {
                    Verdict::Finish
                }
            },
        }
    }
}

/// The error for a request that took longer than so many milliseconds.
pub fn timeout_error(millis: u128) -> (r: OxiHttpError)
    ensures
        r@ == (
            ErrorKind::Timeout,
            "request timed out after "@ + decimal(millis as nat) + "ms"@,
        ),
{
    let mut m = "request timed out after ".to_owned();
    m.append(to_decimal_wide(millis).as_str());
    m.append("ms");
    OxiHttpError::Timeout(m)
}

/// What a row of attempts comes to: how the counter stands, or `None` once the request is finished.
pub open spec fn attempts_after(s: AttemptsView, outcomes: Seq<Attempted>) -> Option<AttemptsView>
    decreases outcomes.len(),
{
    if outcomes.len() == 0 {
        Some(s)
    } else {
        match attempts_after(s, outcomes.drop_last()) {
            None => None,
            Some(t) => if t.retries(outcomes.last()) {
                Some(AttemptsView { attempt: t.attempt + 1, ..t })
            } else {
                None
            },
        }
    }
}

/// However the attempts end, a request is tried at most once more than it may be tried again: the
/// last attempt that is allowed finishes it.
pub proof fn law_attempts_bounded(policy: Option<RetryPolicy>, outcomes: Seq<Attempted>)
    requires
        outcomes.len() >= (AttemptsView { policy, attempt: 0 }).max_attempts(),
    ensures
        attempts_after(AttemptsView { policy, attempt: 0 }, outcomes) is None,
{
    lemma_attempts_count(AttemptsView { policy, attempt: 0 }, outcomes);
}

proof fn lemma_attempts_count(s: AttemptsView, outcomes: Seq<Attempted>)
    requires
        s.attempt < s.max_attempts(),
    ensures
        attempts_after(s, outcomes) matches Some(t) ==> t.policy == s.policy && t.attempt
            == s.attempt + outcomes.len() && t.attempt < t.max_attempts(),
    decreases outcomes.len(),
{
    if outcomes.len() > 0 {
        lemma_attempts_count(s, outcomes.drop_last());
    }
}

/// Without a policy a request is tried once.
pub proof fn law_no_policy_no_retry(a: Attempted)
    ensures
        !(AttemptsView { policy: None, attempt: 0 }).retries(a),
{
}

// ---------------------------------------------------------------------------
// Redirects
// ---------------------------------------------------------------------------

/// A request on its way through redirects.
pub struct Exchange {
    /// The method of the next request.
    pub method: Method,
    /// Where it goes.
    pub uri: Uri,
    /// Its body.
    pub body: Bytes,
    /// How many redirects are followed; `None` for any number.
    pub max_redirects: Option<usize>,
    /// How many redirects were followed.
    pub redirects: usize,
}

/// What a request on its way says.
pub struct ExchangeView {
    pub method: Seq<char>,
    pub uri: UriView,
    pub body: Seq<u8>,
    pub max_redirects: Option<usize>,
    pub redirects: usize,
}

impl View for Exchange {
    type V = ExchangeView;

    open spec fn view(&self) -> ExchangeView {
        ExchangeView {
            method: self.method@,
            uri: self.uri@,
            body: bytes_of(self.body),
            max_redirects: self.max_redirects,
            redirects: self.redirects,
        }
    }
}

/// A response, as far as redirects go.
pub struct Answered<'a> {
    /// Whether its status is a redirect.
    pub is_redirect: bool,
    /// Its `Location`, where it has one that is visible ASCII.
    pub location: Option<&'a str>,
    /// The method with which its redirect is followed.
    pub next_method: Method,
    /// Whether its redirect is followed with the body.
    pub keeps_body: bool,
}

/// What to do about a response.
pub enum Step {
    /// Hand it on.
    Done,
    /// Follow its redirect.
    Follow(Exchange),
}

/// What comes of a response: `None` to hand it on, or the request that follows its redirect.
pub open spec fn redirect_step(x: ExchangeView, a: Answered) -> Result<
    Option<ExchangeView>,
    (ErrorKind, Seq<char>),
> {
    if !a.is_redirect || x.max_redirects == Some(0usize) {
        Ok(None)
    } else if x.max_redirects matches Some(max) && x.redirects >= max {
        Err(
            (
                ErrorKind::Redirect,
                "too many redirects (max: "@ + decimal(x.max_redirects->0 as nat) + ")"@,
            ),
        )
    } else {
        match a.location {
            None => Err((ErrorKind::Redirect, "redirect response missing Location header"@)),
            Some(location) => match redirect_uri(x.uri, location@) {
                Err(e) => Err(e),
                Ok(uri) => Ok(
                    Some(
                        ExchangeView {
                            method: a.next_method@,
                            uri,
                            body: if a.keeps_body {
                                x.body
                            } else {
                                Seq::empty()
                            },
                            max_redirects: x.max_redirects,
                            redirects: (x.redirects + 1) as usize,
                        },
                    ),
                ),
            },
        }
    }
}

impl Exchange {
    /// Decides what to do about a response.
    ///
    /// A redirect is followed as often as is allowed; where none is, it is handed on as it is.
    pub fn on_response(self, a: Answered<'_>) -> (r: Result<Step, OxiHttpError>)
        requires
            self.redirects < usize::MAX,
        ensures
            redirect_step(self@, a) == match r {
                Ok(Step::Done) => Ok(None),
                Ok(Step::Follow(x)) => Ok(Some(x@)),
                Err(e) => Err(e@),
            },
            r matches Ok(Step::Follow(x)) ==> x.uri@.wf(),
            r matches Ok(Step::Follow(x)) ==> a.location matches Some(location) && stays(
                self.uri@,
                location@,
                x.uri@,
            ),
    {
        if !a.is_redirect {
            return Ok(Step::Done);
        }
        if let Some(max) = self.max_redirects {
            if max == 0 {
                return Ok(Step::Done);
            }
            if self.redirects >= max {
                let mut m = "too many redirects (max: ".to_owned();
                m.append(to_decimal(max as u64).as_str());
                m.append(")");
                return Err(OxiHttpError::Redirect(m));
            }
        }
        let location = match a.location {
            Some(v) => v,
            None => return Err(
                OxiHttpError::Redirect("redirect response missing Location header".to_owned()),
            ),
        };
        let uri = match resolve_redirect_uri(&self.uri, location) {
            Ok(uri) => uri,
            Err(e) => return Err(e),
        };
        Ok(
            Step::Follow(
                Exchange {
                    method: a.next_method,
                    uri,
                    body: if a.keeps_body {
                        self.body
                    } else {
                        Bytes::new()
                    },
                    max_redirects: self.max_redirects,
                    redirects: self.redirects + 1,
                },
            ),
        )
    }
}

/// Where a row of responses leads: the request that follows the last of them, or `None` once one is
/// handed on or ends with an error.
pub open spec fn followed(x: ExchangeView, answers: Seq<Answered>) -> Option<ExchangeView>
    decreases answers.len(),
{
    if answers.len() == 0 {
        Some(x)
    } else {
        match followed(x, answers.drop_last()) {
            None => None,
            Some(y) => match redirect_step(y, answers.last()) {
                Ok(next) => next,
                Err(_) => None,
            },
        }
    }
}

/// Whatever the responses are, no more redirects are followed than is allowed.
pub proof fn law_redirects_bounded(x: ExchangeView, answers: Seq<Answered>)
    requires
        x.redirects == 0,
        x.max_redirects is Some,
        answers.len() > x.max_redirects->0,
    ensures
        followed(x, answers) is None,
{
    lemma_redirects_counted(x, answers);
}

proof fn lemma_redirects_counted(x: ExchangeView, answers: Seq<Answered>)
    requires
        x.redirects == 0,
        x.max_redirects is Some,
    ensures
        followed(x, answers) matches Some(y) ==> y.max_redirects == x.max_redirects && y.redirects
            == answers.len() && y.redirects <= x.max_redirects->0,
    decreases answers.len(),
{
    if answers.len() > 0 {
        lemma_redirects_counted(x, answers.drop_last());
    }
}

/// Where no redirects are followed, every response is handed on.
pub proof fn law_no_redirects(x: ExchangeView, a: Answered)
    requires
        x.max_redirects == Some(0usize),
    ensures
        redirect_step(x, a) == Ok::<Option<ExchangeView>, (ErrorKind, Seq<char>)>(None),
{
}

// ---------------------------------------------------------------------------
// Headers of a request
// ---------------------------------------------------------------------------

/// The headers with which a request goes out: `Accept-Encoding` where responses are decompressed
/// and it is not set, and `Cookie` where there are cookies that can be sent.
pub open spec fn outgoing_headers(
    entries: Map<Seq<char>, Seq<Seq<u8>>>,
    decompression: bool,
    cookie: Option<Seq<char>>,
) -> Map<Seq<char>, Seq<Seq<u8>>> {
    let e = if decompression && !entries.contains_key("accept-encoding"@) {
        with_header(entries, "accept-encoding"@, "gzip, deflate"@)
    } else {
        entries
    };
    match cookie {
        Some(c) => if valid_value(encode_utf8(c)) {
            with_header(e, "cookie"@, c)
        } else {
            e
        },
        None => e,
    }
}

/// Puts the headers together with which a request goes out.
pub fn request_headers(headers: &HeaderMap, decompression: bool, cookie: Option<&str>) -> (r:
    HeaderMap)
    requires
        has_room(*headers, 2),
    ensures
        header_entries(r) == outgoing_headers(
            header_entries(*headers),
            decompression,
            opt_text(cookie),
        ),
{
    proof {
        lemma_known_names();
        reveal_strlit("gzip, deflate");
        lemma_plain_value("gzip, deflate"@);
    }
    let mut out = clone_map(headers);
    if decompression && first_value(headers, "accept-encoding").is_none() {
        set_text(&mut out, "accept-encoding", "gzip, deflate");
    }
    if let Some(c) = cookie {
        set_text(&mut out, "cookie", c);
    }
    out
}

} // verus!
