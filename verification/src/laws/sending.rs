//! Sending a request: trying again, redirects and headers.

use http::HeaderMap;
use vstd::prelude::*;
use vstd::utf8::encode_utf8;

use crate::error::{ErrorKind, OxiHttpError};
use crate::exchange::{
    request_headers, timeout_error, Answered, Attempted, Attempts, Exchange, RetryPolicy, Step,
    Verdict,
};
use crate::headers::{header_entries, valid_value};
use crate::octets::bytes_of;
use crate::text::{to_decimal, to_decimal_wide};
use crate::uri::{resolve_redirect_uri, Uri};

verus! {

/// A request starts with its first attempt.
pub proof fn law_first_attempt(policy: Option<RetryPolicy>, r: Attempts)
    requires
        call_ensures(Attempts::new, (policy,), r),
    ensures
        r@.attempt == 0,
        r@.policy == policy,
{
}

/// As long as attempts are left, one that ended with a timeout is repeated exactly where the policy
/// says so for timeouts, one that ended with a failed connection or failed input and output where
/// it says so for connections, and one that was answered where the status is one to try again on.
/// Nothing else is repeated, and nothing without a policy.
pub proof fn law_tried_again(s: &mut Attempts, a: Attempted, r: Verdict)
    requires
        call_ensures(Attempts::after, (s, a), r),
        (*old(s))@.attempt <= u32::MAX,
    ensures
        ({
            let before = (*old(s))@;
            let left = before.policy matches Some(p) && before.attempt < p.max_retries;
            let again = match a {
                Attempted::Answered { retryable } => left && retryable,
                Attempted::Failed(kind) => if kind == ErrorKind::Timeout {
                    left && before.policy->0.retry_on_timeout
                } else if kind == ErrorKind::Hyper || kind == ErrorKind::Io {
                    left && before.policy->0.retry_on_connection_error
                } else {
                    false
                },
            };
            &&& again <==> r != Verdict::Finish
            &&& r matches Verdict::RetryAfter(n) ==> n == before.attempt
            &&& (*final(s))@.policy == before.policy
            &&& (*final(s))@.attempt == before.attempt + if again {
                1int
            } else {
                0
            }
        }),
{
}

/// The error of a timeout tells how many milliseconds passed.
pub proof fn law_timeout_error(millis: u128, r: OxiHttpError, numeral: String)
    requires
        call_ensures(timeout_error, (millis,), r),
        call_ensures(to_decimal_wide, (millis,), numeral),
    ensures
        r@ == (ErrorKind::Timeout, "request timed out after "@ + numeral@ + "ms"@),
{
}

/// A redirect is followed with the method that its status calls for, to where its location leads
/// from the request's own address, with the body where that is kept and with none where it is not.
pub proof fn law_followed<'a>(
    x: Exchange,
    a: Answered<'a>,
    r: Result<Step, OxiHttpError>,
    location: &str,
    to: Result<Uri, OxiHttpError>,
)
    requires
        call_ensures(Exchange::on_response, (x, a), r),
        call_ensures(resolve_redirect_uri, (&x.uri, location), to),
        a.location matches Some(l) && l@ == location@,
        x.redirects < usize::MAX,
    ensures
        r matches Ok(Step::Follow(y)) ==> {
            &&& y.method@ == a.next_method@
            &&& to matches Ok(u) && y.uri@ == u@
            &&& a.keeps_body ==> bytes_of(y.body) == bytes_of(x.body)
            &&& !a.keeps_body ==> bytes_of(y.body).len() == 0
            &&& y.max_redirects == x.max_redirects
            &&& y.redirects == x.redirects + 1
        },
        a.is_redirect && x.max_redirects != Some(0usize) && (x.max_redirects matches Some(max)
            ==> x.redirects < max) ==> match to {
            Ok(_) => r matches Ok(Step::Follow(_)),
            Err(e) => r matches Err(f) && f@ == e@,
        },
{
}

/// A response that is no redirect is handed on, and so is a redirect where none are followed. One
/// too many is an error that tells the limit, and so is one that does not say where to.
pub proof fn law_not_followed<'a>(
    x: Exchange,
    a: Answered<'a>,
    r: Result<Step, OxiHttpError>,
    numeral: String,
)
    requires
        call_ensures(Exchange::on_response, (x, a), r),
        x.max_redirects matches Some(max) ==> call_ensures(to_decimal, (max as u64,), numeral),
    ensures
        (r matches Ok(Step::Done)) <==> !a.is_redirect || x.max_redirects == Some(0usize),
        a.is_redirect && (x.max_redirects matches Some(max) && 0 < max <= x.redirects) ==> (
        r matches Err(e) && e@ == (
            ErrorKind::Redirect,
            "too many redirects (max: "@ + numeral@ + ")"@,
        )),
        a.is_redirect && x.max_redirects != Some(0usize) && (x.max_redirects matches Some(max)
            ==> x.redirects < max) && a.location is None ==> (r matches Err(e) && e@ == (
            ErrorKind::Redirect,
            "redirect response missing Location header"@,
        )),
{
}

/// A request goes out with its own headers. It asks for `gzip, deflate` where bodies are
/// decompressed and it does not ask for anything itself, and carries the cookies in place of its
/// own where they can be sent.
pub proof fn law_request_headers(
    headers: &HeaderMap,
    decompression: bool,
    cookie: Option<&str>,
    r: HeaderMap,
)
    requires
        call_ensures(request_headers, (headers, decompression, cookie), r),
    ensures
        ({
            let (before, after) = (header_entries(*headers), header_entries(r));
            let asks = decompression && !before.contains_key("accept-encoding"@);
            let sends = cookie matches Some(c) && valid_value(encode_utf8(c@));
            &&& asks ==> after.contains_key("accept-encoding"@) && after["accept-encoding"@]
                == seq![encode_utf8("gzip, deflate"@)]
            &&& sends ==> after.contains_key("cookie"@) && after["cookie"@] == seq![
                encode_utf8(cookie->0@),
            ]
            &&& forall|name: Seq<char>|
                !(asks && name == "accept-encoding"@) && !(sends && name == "cookie"@) ==> {
                    &&& #[trigger] after.contains_key(name) == before.contains_key(name)
                    &&& before.contains_key(name) ==> after[name] == before[name]
                }
        }),
{
    reveal_strlit("accept-encoding");
    reveal_strlit("cookie");
    assert("accept-encoding"@.len() != "cookie"@.len());
}

} // verus!
