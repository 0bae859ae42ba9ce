//! TLS and connections: what they are set up with.

use hyper_util::client::legacy::connect::HttpConnector;
use hyper_util::client::legacy::Builder;
use std::path::PathBuf;
use tokio_rustls::TlsConnector;
use vstd::prelude::*;
use vstd::utf8::encode_utf8;

use crate::error::{ErrorKind, OxiHttpError};
use crate::tls::{
    build_tls_connector, connector_settings, with_request_tls_config, RequestTlsConfig,
    TlsRebuildConfig, TlsSettings,
};
use crate::transport::{connect_settings, pool_settings};

verus! {

/// Whether settings are those asked for: TLS 1.2 beside TLS 1.3, and each of the others as given.
pub open spec fn as_asked(
    s: TlsSettings,
    certs: Seq<Vec<u8>>,
    alpn: Seq<String>,
    accept_invalid: bool,
    webpki_roots: bool,
    key_log: Option<PathBuf>,
    early_data: bool,
) -> bool {
    &&& s.tls12
    &&& s.webpki_roots == webpki_roots
    &&& s.trusted_certs.len() == certs.len()
    &&& forall|i: int| 0 <= i < certs.len() ==> s.trusted_certs[i] == (#[trigger] certs[i])@
    &&& s.alpn.len() == alpn.len()
    &&& forall|i: int| 0 <= i < alpn.len() ==> s.alpn[i] == encode_utf8((#[trigger] alpn[i])@)
    &&& s.accept_invalid == accept_invalid
    &&& s.key_log == key_log
    &&& s.early_data == early_data
}

/// A connector is set up with what was asked for; an error is one of TLS; and nothing is set up
/// that trusts nothing.
pub proof fn law_connector(
    certs: &Vec<Vec<u8>>,
    alpn: &Vec<String>,
    accept_invalid: bool,
    webpki_roots: bool,
    key_log: Option<PathBuf>,
    early_data: bool,
    r: Result<TlsConnector, OxiHttpError>,
)
    requires
        call_ensures(
            build_tls_connector,
            (certs, alpn, accept_invalid, webpki_roots, key_log, early_data),
            r,
        ),
    ensures
        r matches Ok(c) ==> as_asked(
            connector_settings(c),
            certs@,
            alpn@,
            accept_invalid,
            webpki_roots,
            key_log,
            early_data,
        ),
        r matches Err(e) ==> e@.0 == ErrorKind::Tls,
        !webpki_roots && certs@.len() == 0 && !accept_invalid ==> r is Err,
{
}

/// An override replaces the certificates where it gives any, turns verification off where it says
/// so, and changes nothing else.
pub proof fn law_merge<V, H>(
    b: TlsRebuildConfig<V, H>,
    o: RequestTlsConfig,
    r: TlsRebuildConfig<V, H>,
)
    requires
        call_ensures(TlsRebuildConfig::<V, H>::merge, (b, o), r),
    ensures
        r.trusted_certs_der == if o.trusted_cert_ders@.len() > 0 {
            o.trusted_cert_ders
        } else {
            b.trusted_certs_der
        },
        r.accept_invalid_certs <==> b.accept_invalid_certs || o.accept_invalid_certs,
        r.alpn == b.alpn,
        r.use_webpki_roots == b.use_webpki_roots,
        r.key_log_path == b.key_log_path,
        r.early_data == b.early_data,
        r.connect_timeout == b.connect_timeout,
        r.tcp_nodelay == b.tcp_nodelay,
        r.tcp_keepalive == b.tcp_keepalive,
        r.http2_settings == b.http2_settings,
        r.pool_max_idle_per_host == b.pool_max_idle_per_host,
        r.pool_idle_timeout == b.pool_idle_timeout,
        r.custom_cert_verifier == b.custom_cert_verifier,
{
}

/// A verifier of its own comes before all other trust; without one the connector is set up with all
/// that the settings say.
pub proof fn law_connector_of<V, H>(
    b: TlsRebuildConfig<V, H>,
    r: Result<Option<TlsConnector>, OxiHttpError>,
)
    requires
        call_ensures(TlsRebuildConfig::<V, H>::connector, (&b,), r),
    ensures
        (r matches Ok(None)) <==> b.custom_cert_verifier is Some,
        r matches Ok(Some(c)) ==> as_asked(
            connector_settings(c),
            b.trusted_certs_der@,
            b.alpn@,
            b.accept_invalid_certs,
            b.use_webpki_roots,
            b.key_log_path,
            b.early_data,
        ),
        r matches Err(e) ==> e@.0 == ErrorKind::Tls,
{
}

/// A client that was not set up for TLS has nothing to override. Any other gets the settings with
/// the override, and a connector for them.
pub proof fn law_request_tls<V, H>(
    base: Option<TlsRebuildConfig<V, H>>,
    o: RequestTlsConfig,
    merged: TlsRebuildConfig<V, H>,
    r: Result<(TlsRebuildConfig<V, H>, Option<TlsConnector>), OxiHttpError>,
)
    requires
        call_ensures(with_request_tls_config, (base, o), r),
        base matches Some(b) ==> call_ensures(TlsRebuildConfig::<V, H>::merge, (b, o), merged),
    ensures
        base is None ==> (r matches Err(e) && e@ == (
            ErrorKind::Tls,
            "client has no TLS rebuild config (was it built with build_https()?)"@,
        )),
        base is Some ==> match r {
            Ok((n, c)) => n == merged && (c is None <==> merged.custom_cert_verifier is Some) && (
            c matches Some(c) ==> as_asked(
                connector_settings(c),
                merged.trusted_certs_der@,
                merged.alpn@,
                merged.accept_invalid_certs,
                merged.use_webpki_roots,
                merged.key_log_path,
                merged.early_data,
            )),
            Err(e) => e@.0 == ErrorKind::Tls && merged.custom_cert_verifier is None,
        },
{
}

/// Connections are made for any scheme. What the settings give is set; what they leave open stays.
pub proof fn law_connect_settings<V, H>(b: TlsRebuildConfig<V, H>, http: &mut HttpConnector)
    requires
        call_ensures(TlsRebuildConfig::<V, H>::apply_connect_settings, (&b, http), ()),
    ensures
        ({
            let (before, after) = (connect_settings(*old(http)), connect_settings(*final(http)));
            &&& !after.enforce_http
            &&& b.connect_timeout is Some ==> after.connect_timeout == b.connect_timeout
            &&& b.connect_timeout is None ==> after.connect_timeout == before.connect_timeout
            &&& b.tcp_nodelay matches Some(n) ==> after.nodelay == n
            &&& b.tcp_nodelay is None ==> after.nodelay == before.nodelay
            &&& b.tcp_keepalive is Some ==> after.keepalive == b.tcp_keepalive
            &&& b.tcp_keepalive is None ==> after.keepalive == before.keepalive
        }),
{
}

/// Connections are kept as the settings say; what they leave open stays.
pub proof fn law_pool_settings<V, H>(b: TlsRebuildConfig<V, H>, hb: &mut Builder)
    requires
        call_ensures(TlsRebuildConfig::<V, H>::apply_pool_settings, (&b, hb), ()),
    ensures
        ({
            let (before, after) = (pool_settings(*old(hb)), pool_settings(*final(hb)));
            &&& b.pool_max_idle_per_host matches Some(n) ==> after.max_idle_per_host == n
            &&& b.pool_max_idle_per_host is None ==> after.max_idle_per_host
                == before.max_idle_per_host
            &&& b.pool_idle_timeout is Some ==> after.idle_timeout == b.pool_idle_timeout
            &&& b.pool_idle_timeout is None ==> after.idle_timeout == before.idle_timeout
        }),
{
}

} // verus!
