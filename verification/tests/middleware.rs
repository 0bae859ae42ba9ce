use std::time::Duration;

use http::{HeaderMap, HeaderName, HeaderValue};
use oxihttp::error::ErrorKind;
use oxihttp::headers::room_for;
use oxihttp::http_types::{Method, Reply};
use oxihttp::middleware::{
    too_many_requests, BodyLimitConfig, CorsConfig, MiddlewarePipeline, PreStep, TimeoutConfig,
};

fn headers(list: &[(&'static str, &str)]) -> HeaderMap {
    let mut map = HeaderMap::new();
    for (name, value) in list {
        map.insert(
            HeaderName::from_static(name),
            HeaderValue::from_str(value).unwrap(),
        );
    }
    map
}

fn applied(cors: &CorsConfig, origin: Option<&str>) -> HeaderMap {
    let mut map = headers(&[("x-kept", "yes")]);
    assert!(room_for(&map, 6));
    cors.apply_headers(&mut map, origin);
    assert_eq!(map["x-kept"], "yes");
    map
}

#[test]
fn permissive_cors_allows_all() {
    let map = applied(&CorsConfig::default(), None);
    assert_eq!(map["access-control-allow-origin"], "*");
    assert_eq!(
        map["access-control-allow-methods"],
        "GET, POST, PUT, DELETE, PATCH, HEAD, OPTIONS"
    );
    assert_eq!(map["access-control-allow-headers"], "*");
    assert_eq!(map["access-control-max-age"], "86400");
    assert_eq!(map.get("access-control-allow-credentials"), None);
    assert_eq!(map.get("access-control-expose-headers"), None);
    assert_eq!(map.len(), 5);
}

#[test]
fn origins_are_checked() {
    let mut cors = CorsConfig::with_origins(vec!["https://a.example".to_string()]);
    cors.allow_credentials = true;
    cors.exposed_headers = vec!["X-One".to_string(), "X-Two".to_string()];
    cors.allowed_headers = vec![];
    cors.max_age = None;
    let map = applied(&cors, Some("https://a.example"));
    assert_eq!(map["access-control-allow-origin"], "https://a.example");
    assert_eq!(map["access-control-allow-credentials"], "true");
    assert_eq!(map["access-control-expose-headers"], "X-One, X-Two");
    assert_eq!(map.get("access-control-allow-headers"), None);
    assert_eq!(map.get("access-control-max-age"), None);
    assert_eq!(applied(&cors, Some("https://b.example")).len(), 1);
    assert_eq!(applied(&cors, None).len(), 1);
}

#[test]
fn texts_that_cannot_be_sent_are_left_out() {
    let mut cors = CorsConfig::with_origins(vec!["bad\norigin".to_string()]);
    cors.allowed_methods = vec![Method::Other("X\r\n".to_string())];
    let map = applied(&cors, Some("bad\norigin"));
    assert_eq!(map.get("access-control-allow-origin"), None);
    assert_eq!(map.get("access-control-allow-methods"), None);
    assert_eq!(map["access-control-allow-headers"], "*");
}

#[test]
fn preflight_requests_are_answered() {
    let reply = CorsConfig::permissive().preflight_response(Some("https://x")).unwrap();
    assert_eq!(reply.status, 204);
    assert!(reply.body.is_empty());
    assert_eq!(reply.headers["access-control-allow-origin"], "*");
}

#[test]
fn applying_cors_twice_is_applying_it_once() {
    let cors = CorsConfig::permissive();
    let once = applied(&cors, Some("https://x"));
    let mut twice = once.clone();
    cors.apply_headers(&mut twice, Some("https://x"));
    assert_eq!(once, twice);
}

#[test]
fn bodies_are_limited() {
    let limit = BodyLimitConfig::new(10);
    assert!(limit.check_content_length(None).is_ok());
    assert!(limit.check_content_length(Some(10)).is_ok());
    let err = limit.check_content_length(Some(11)).unwrap_err();
    assert_eq!(err.kind(), ErrorKind::Body);
    assert_eq!(
        err.message(),
        "request body too large: 11 bytes exceeds limit of 10 bytes"
    );
}

#[test]
fn fixed_responses() {
    let reply = too_many_requests().unwrap();
    assert_eq!((reply.status, &reply.body[..]), (429, &b"Too Many Requests"[..]));
    let reply = TimeoutConfig::timeout_response().unwrap();
    assert_eq!((reply.status, &reply.body[..]), (408, &b"Request Timeout"[..]));
    let timeout = TimeoutConfig::new(Duration::from_secs(3));
    assert_eq!(timeout.duration, Duration::from_secs(3));
}

#[test]
fn an_empty_pipeline_hands_on() {
    let pipeline: MiddlewarePipeline<()> = MiddlewarePipeline::default();
    assert!(matches!(
        pipeline.pre_handle(&Method::Options, &headers(&[("content-length", "5")])),
        PreStep::Proceed
    ));
    let mut reply = Reply::empty(200);
    pipeline.post_handle(&mut reply, None);
    assert!(reply.headers.is_empty());
}

#[test]
fn a_pipeline_decides_in_order() {
    let pipeline = MiddlewarePipeline::new()
        .with_cors(CorsConfig::permissive())
        .with_rate_limiter(7u8)
        .with_body_limit(10)
        .with_timeout(Duration::from_secs(1));
    assert_eq!(pipeline.rate_limiter, Some(7));
    assert!(pipeline.timeout.is_some());
    assert!(matches!(
        pipeline.pre_handle(&Method::Options, &headers(&[("origin", "https://x")])),
        PreStep::Respond(Ok(r)) if r.status == 204
    ));
    let named = Method::Other("OPTIONS".to_string());
    assert!(matches!(
        pipeline.pre_handle(&named, &headers(&[("origin", "https://x")])),
        PreStep::Respond(Ok(r)) if r.status == 204
    ));
    assert!(matches!(
        pipeline.pre_handle(&Method::Get, &headers(&[("x-forwarded-for", "10.0.0.1")])),
        PreStep::CheckRate(key) if key == "10.0.0.1"
    ));
    assert!(matches!(
        pipeline.pre_handle(&Method::Get, &headers(&[])),
        PreStep::CheckRate(key) if key == "unknown"
    ));
    let long = headers(&[("content-length", "11")]);
    let refused = pipeline.rate_checked(false, &long).unwrap().unwrap();
    assert_eq!(refused.status, 429);
    let large = pipeline.rate_checked(true, &long).unwrap().unwrap();
    assert_eq!(large.status, 413);
    assert_eq!(
        &large.body[..],
        b"request body too large: 11 bytes exceeds limit of 10 bytes"
    );
    assert!(pipeline.rate_checked(true, &headers(&[("content-length", "10")])).is_none());
    assert!(pipeline.rate_checked(true, &headers(&[("content-length", "ten")])).is_none());
}

#[test]
fn a_pipeline_without_a_limiter_checks_the_size() {
    let pipeline: MiddlewarePipeline<u8> = MiddlewarePipeline::new().with_body_limit(3);
    assert!(matches!(
        pipeline.pre_handle(&Method::Post, &headers(&[("content-length", "4")])),
        PreStep::Respond(Ok(r)) if r.status == 413
    ));
    assert!(matches!(
        pipeline.pre_handle(&Method::Post, &headers(&[("content-length", "3")])),
        PreStep::Proceed
    ));
}

#[test]
fn responses_get_cors_headers() {
    let pipeline: MiddlewarePipeline<u8> =
        MiddlewarePipeline::new().with_cors(CorsConfig::permissive());
    let mut reply = Reply::empty(200);
    pipeline.post_handle(&mut reply, Some("https://x"));
    assert_eq!(reply.headers["access-control-allow-origin"], "*");
    assert_eq!(reply.status, 200);
}
