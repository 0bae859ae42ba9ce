//! The settings of connections and of the pool that keeps them.

use hyper_util::client::legacy::connect::HttpConnector;
use hyper_util::client::legacy::Builder;
use std::time::Duration;
use vstd::prelude::*;

verus! {

/// `hyper_util::client::legacy::connect::HttpConnector`, whose inside is not seen here.
#[verifier::external_type_specification]
#[verifier::external_body]
#[verifier::reject_recursive_types(R)]
pub struct ExHttpConnector<R>(hyper_util::client::legacy::connect::HttpConnector<R>);

/// `hyper_util::client::legacy::connect::dns::GaiResolver`, whose inside is not seen here.
#[verifier::external_type_specification]
#[verifier::external_body]
pub struct ExGaiResolver(hyper_util::client::legacy::connect::dns::GaiResolver);

/// `hyper_util::client::legacy::Builder`, whose inside is not seen here.
#[verifier::external_type_specification]
#[verifier::external_body]
pub struct ExBuilder(hyper_util::client::legacy::Builder);

/// How connections are made.
pub struct ConnectSettings {
    /// Whether only URIs with the scheme `http` are accepted.
    pub enforce_http: bool,
    /// How long connecting may take.
    pub connect_timeout: Option<Duration>,
    /// Whether `TCP_NODELAY` is set.
    pub nodelay: bool,
    /// How long a connection is idle before probes are sent.
    pub keepalive: Option<Duration>,
}

/// How connections are kept.
pub struct PoolSettings {
    /// How many idle connections are kept for each host.
    pub max_idle_per_host: usize,
    /// How long idle connections are kept.
    pub idle_timeout: Option<Duration>,
}

/// The settings that a connector holds.
pub uninterp spec fn connect_settings(c: HttpConnector) -> ConnectSettings;

/// The settings of the pool that a builder holds.
pub uninterp spec fn pool_settings(b: Builder) -> PoolSettings;

/// `HttpConnector::enforce_http`: sets this, and nothing else.
#[verifier::external_body]
pub(crate) fn enforce_http(c: &mut HttpConnector, is_enforced: bool)
    ensures
        connect_settings(*final(c)) == (ConnectSettings {
            enforce_http: is_enforced,
            ..connect_settings(*old(c))
        }),
{
    c.enforce_http(is_enforced);
}

/// `HttpConnector::set_connect_timeout`: sets this, and nothing else.
#[verifier::external_body]
pub(crate) fn set_connect_timeout(c: &mut HttpConnector, dur: Option<Duration>)
    ensures
        connect_settings(*final(c)) == (ConnectSettings {
            connect_timeout: dur,
            ..connect_settings(*old(c))
        }),
{
    c.set_connect_timeout(dur);
}

/// `HttpConnector::set_nodelay`: sets this, and nothing else.
#[verifier::external_body]
pub(crate) fn set_nodelay(c: &mut HttpConnector, nodelay: bool)
    ensures
        connect_settings(*final(c)) == (ConnectSettings {
            nodelay: nodelay,
            ..connect_settings(*old(c))
        }),
{
    c.set_nodelay(nodelay);
}

/// `HttpConnector::set_keepalive`: sets this, and nothing else.
#[verifier::external_body]
pub(crate) fn set_keepalive(c: &mut HttpConnector, time: Option<Duration>)
    ensures
        connect_settings(*final(c)) == (ConnectSettings {
            keepalive: time,
            ..connect_settings(*old(c))
        }),
{
    c.set_keepalive(time);
}

/// `Builder::pool_max_idle_per_host`: sets this, and nothing else.
#[verifier::external_body]
pub(crate) fn set_pool_max_idle_per_host(b: &mut Builder, max_idle: usize)
    ensures
        pool_settings(*final(b)) == (PoolSettings {
            max_idle_per_host: max_idle,
            ..pool_settings(*old(b))
        }),
{
    b.pool_max_idle_per_host(max_idle);
}

/// `Builder::pool_idle_timeout`: sets this, and nothing else.
#[verifier::external_body]
pub(crate) fn set_pool_idle_timeout(b: &mut Builder, dur: Duration)
    ensures
        pool_settings(*final(b)) == (PoolSettings {
            idle_timeout: Some(dur),
            ..pool_settings(*old(b))
        }),
{
    b.pool_idle_timeout(dur);
}

} // verus!
