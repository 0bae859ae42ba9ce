//! How the TLS connector of a client is set up.

use hyper_util::client::legacy::connect::HttpConnector;
use hyper_util::client::legacy::Builder;
use oxitls::tls13::ClientBuilder;
use oxitls::TlsError;
use rustls::ClientConfig;
use std::path::PathBuf;
use std::time::Duration;
use tokio_rustls::TlsConnector;
use vstd::prelude::*;
use vstd::utf8::encode_utf8;

use crate::error::{ErrorKind, OxiHttpError};
use crate::transport::{
    connect_settings, enforce_http, pool_settings, set_connect_timeout, set_keepalive, set_nodelay,
    set_pool_idle_timeout, set_pool_max_idle_per_host, ConnectSettings, PoolSettings,
};

verus! {

/// `oxitls::tls13::ClientBuilder`, whose inside is not seen here.
#[verifier::external_type_specification]
#[verifier::external_body]
pub struct ExClientBuilder(oxitls::tls13::ClientBuilder);

/// `oxitls::TlsError`, whose inside is not seen here.
#[verifier::external_type_specification]
#[verifier::external_body]
pub struct ExTlsError(oxitls::TlsError);

/// `rustls::ClientConfig`, whose inside is not seen here.
#[verifier::external_type_specification]
#[verifier::external_body]
pub struct ExClientConfig(rustls::ClientConfig);

/// `tokio_rustls::TlsConnector`, whose inside is not seen here.
#[verifier::external_type_specification]
#[verifier::external_body]
pub struct ExTlsConnector(tokio_rustls::TlsConnector);

/// What a TLS connector is set up with.
#[verifier::ext_equal]
pub struct TlsSettings {
    /// Whether TLS 1.2 is allowed beside TLS 1.3.
    pub tls12: bool,
    /// Whether the Mozilla CA bundle is trusted.
    pub webpki_roots: bool,
    /// The further CA certificates that are trusted, DER-encoded.
    pub trusted_certs: Seq<Seq<u8>>,
    /// The protocols to announce (ALPN).
    pub alpn: Seq<Seq<u8>>,
    /// Whether certificates are not verified.
    pub accept_invalid: bool,
    /// The file that session secrets are written to.
    pub key_log: Option<PathBuf>,
    /// Whether 0-RTT data is allowed.
    pub early_data: bool,
}

impl TlsSettings {
    /// Whether there is nothing that a certificate could be trusted by, and certificates are
    /// verified.
    pub open spec fn trusts_nothing(self) -> bool {
        !self.webpki_roots && self.trusted_certs.len() == 0 && !self.accept_invalid
    }

    /// Why no connector can be set up so, as far as there is a reason.
    pub open spec fn problem(self) -> Option<Seq<char>> {
        tls_setup_problem(
            self.tls12,
            self.webpki_roots,
            self.trusted_certs,
            self.accept_invalid,
        )
    }
}

/// The settings of a builder on which nothing was set.
pub open spec fn default_settings() -> TlsSettings {
    TlsSettings {
        tls12: false,
        webpki_roots: false,
        trusted_certs: Seq::empty(),
        alpn: Seq::empty(),
        accept_invalid: false,
        key_log: None,
        early_data: false,
    }
}

/// The settings that a builder holds.
pub uninterp spec fn builder_settings(b: ClientBuilder) -> TlsSettings;

/// Whether nothing was set on a builder beside those settings, such as a provider of cryptography,
/// pinned certificates or the identity of the client.
pub uninterp spec fn nothing_else_set(b: ClientBuilder) -> bool;

/// The settings that a configuration was made from.
pub uninterp spec fn config_settings(c: ClientConfig) -> TlsSettings;

/// The settings that a connector was made from.
pub uninterp spec fn connector_settings(c: TlsConnector) -> TlsSettings;

/// The text of an error.
pub uninterp spec fn tls_error_text(e: TlsError) -> Seq<char>;

/// Why `ClientBuilder::build` refuses a builder on which nothing but these settings, the protocols
/// to announce, the key log and 0-RTT data is set, or `None` where it accepts it. The last three
/// play no part in it.
pub uninterp spec fn tls_setup_problem(
    tls12: bool,
    webpki_roots: bool,
    trusted_certs: Seq<Seq<u8>>,
    accept_invalid: bool,
) -> Option<Seq<char>>;

/// The settings that a builder holds after a step that may fail.
pub open spec fn settings_after(r: Result<ClientBuilder, TlsError>) -> Option<TlsSettings> {
    match r {
        Ok(b) => Some(builder_settings(b)),
        Err(_) => None,
    }
}

/// Whether nothing else is set on a builder after a step that may fail.
pub open spec fn nothing_else_after(r: Result<ClientBuilder, TlsError>) -> bool {
    match r {
        Ok(b) => nothing_else_set(b),
        Err(_) => true,
    }
}

/// The text of the error, if there is one.
pub open spec fn refusal(r: Result<ClientConfig, TlsError>) -> Option<Seq<char>> {
    match r {
        Ok(_) => None,
        Err(e) => Some(tls_error_text(e)),
    }
}

/// `ClientBuilder::new`: nothing is set.
pub assume_specification[ ClientBuilder::new ]() -> (r: ClientBuilder)
    ensures
        builder_settings(r) == default_settings(),
        nothing_else_set(r),
;

/// `ClientBuilder::with_tls12_fallback`: allows TLS 1.2.
pub assume_specification[ ClientBuilder::with_tls12_fallback ](b: ClientBuilder) -> (r:
    ClientBuilder)
    ensures
        builder_settings(r) == (TlsSettings { tls12: true, ..builder_settings(b) }),
        nothing_else_set(b) ==> nothing_else_set(r),
;

/// `ClientBuilder::with_webpki_roots`: trusts the Mozilla CA bundle.
pub assume_specification[ ClientBuilder::with_webpki_roots ](b: ClientBuilder) -> (r: ClientBuilder)
    ensures
        builder_settings(r) == (TlsSettings { webpki_roots: true, ..builder_settings(b) }),
        nothing_else_set(b) ==> nothing_else_set(r),
;

/// `ClientBuilder::with_trusted_cert_der`: adds a certificate as it stands; what it holds is read
/// only when the configuration is made.
pub assume_specification[ ClientBuilder::with_trusted_cert_der ](
    b: ClientBuilder,
    cert: Vec<u8>,
) -> (r: Result<ClientBuilder, TlsError>)
    ensures
        settings_after(r) == Some(
            TlsSettings {
                trusted_certs: builder_settings(b).trusted_certs.push(cert@),
                ..builder_settings(b)
            },
        ),
        nothing_else_set(b) ==> nothing_else_after(r),
;

/// `ClientBuilder::with_alpn_protocols`: the protocols, in place of those that were set before.
#[verifier::external_body]
fn with_alpn_protocols(b: ClientBuilder, protocols: &Vec<String>) -> (r: ClientBuilder)
    ensures
        builder_settings(r) == (TlsSettings {
            alpn: protocol_bytes(protocols@),
            ..builder_settings(b)
        }),
        nothing_else_set(b) ==> nothing_else_set(r),
{
    b.with_alpn_protocols(protocols)
}

/// `ClientBuilder::with_danger_accept_invalid_certs`: turns verification off.
pub assume_specification[ ClientBuilder::with_danger_accept_invalid_certs ](
    b: ClientBuilder,
) -> (r: ClientBuilder)
    ensures
        builder_settings(r) == (TlsSettings { accept_invalid: true, ..builder_settings(b) }),
        nothing_else_set(b) ==> nothing_else_set(r),
;

/// `ClientBuilder::with_key_log_file`: notes the file, which is opened when there are secrets to
/// write.
pub assume_specification[ ClientBuilder::with_key_log_file ](
    b: ClientBuilder,
    path: PathBuf,
) -> (r: ClientBuilder)
    ensures
        builder_settings(r) == (TlsSettings { key_log: Some(path), ..builder_settings(b) }),
        nothing_else_set(b) ==> nothing_else_set(r),
;

/// `ClientBuilder::with_early_data`: allows 0-RTT data.
pub assume_specification[ ClientBuilder::with_early_data ](b: ClientBuilder) -> (r: ClientBuilder)
    ensures
        builder_settings(r) == (TlsSettings { early_data: true, ..builder_settings(b) }),
        nothing_else_set(b) ==> nothing_else_set(r),
;

/// `ClientBuilder::build`: a configuration made from the settings that the builder holds, where
/// nothing else is set on it, or why there is none; settings that trust nothing are refused. Which
/// certificates are refused, and with which words, is not stated.
pub assume_specification[ ClientBuilder::build ](b: ClientBuilder) -> (r: Result<
    ClientConfig,
    TlsError,
>)
    requires
        nothing_else_set(b),
    ensures
        tls_setup_problem(
            builder_settings(b).tls12,
            builder_settings(b).webpki_roots,
            builder_settings(b).trusted_certs,
            builder_settings(b).accept_invalid,
        ) == refusal(r),
        r matches Ok(c) ==> config_settings(c) == builder_settings(b),
        builder_settings(b).trusts_nothing() ==> r is Err,
;

/// `TlsError::to_string`: the text of the error.
#[verifier::external_body]
fn error_text(e: &TlsError) -> (r: String)
    ensures
        r@ == tls_error_text(*e),
{
    e.to_string()
}

/// `TlsConnector::from`: a connector that uses the configuration.
#[verifier::external_body]
fn connector_from(cfg: ClientConfig) -> (r: TlsConnector)
    ensures
        connector_settings(r) == config_settings(cfg),
{
    TlsConnector::from(std::sync::Arc::new(cfg))
}

/// `PathBuf::clone`: the same path.
pub assume_specification[ <PathBuf as Clone>::clone ](p: &PathBuf) -> (r: PathBuf)
    ensures
        r == *p,
;

/// The bytes of the names of protocols.
pub open spec fn protocol_bytes(protocols: Seq<String>) -> Seq<Seq<u8>> {
    protocols.map_values(|p: String| encode_utf8(p@))
}

/// The bytes of certificates.
pub open spec fn cert_bytes(certs: Seq<Vec<u8>>) -> Seq<Seq<u8>> {
    certs.map_values(|c: Vec<u8>| c@)
}

/// What setting up a connector comes to: a connector with exactly these settings, or an error with
/// the reason.
pub open spec fn set_up(s: TlsSettings, r: Result<TlsConnector, OxiHttpError>) -> bool {
    match r {
        Ok(c) => s.problem() is None && connector_settings(c) == s,
        Err(e) => s.problem() == Some(e@.1) && e@.0 == ErrorKind::Tls,
    }
}

/// Sets up a connector. TLS 1.2 is always allowed beside TLS 1.3.
///
/// - `trusted_certs_der`: further CA certificates to trust, DER-encoded.
/// - `alpn`: the protocols to announce.
/// - `accept_invalid`: whether certificates are not verified (for tests only).
/// - `webpki_roots`: whether the Mozilla CA bundle is trusted.
/// - `key_log_path`: the file that session secrets are written to (for debugging only).
/// - `early_data`: whether 0-RTT data is allowed.
pub fn build_tls_connector(
    trusted_certs_der: &Vec<Vec<u8>>,
    alpn: &Vec<String>,
    accept_invalid: bool,
    webpki_roots: bool,
    key_log_path: Option<PathBuf>,
    early_data: bool,
) -> (r: Result<TlsConnector, OxiHttpError>)
    ensures
        set_up(
            (TlsSettings {
                tls12: true,
                webpki_roots,
                trusted_certs: cert_bytes(trusted_certs_der@),
                alpn: protocol_bytes(alpn@),
                accept_invalid,
                key_log: key_log_path,
                early_data,
            }),
            r,
        ),
        !webpki_roots && trusted_certs_der@.len() == 0 && !accept_invalid ==> r is Err,
{
    let mut builder = ClientBuilder::new().with_tls12_fallback();
    if webpki_roots {
        builder = builder.with_webpki_roots();
    }
    let ghost before = builder_settings(builder);
    let mut i: usize = 0;
    while i < trusted_certs_der.len()
        invariant
            i <= trusted_certs_der@.len(),
            nothing_else_set(builder),
            builder_settings(builder) == (TlsSettings {
                trusted_certs: cert_bytes(trusted_certs_der@.take(i as int)),
                ..before
            }),
        decreases trusted_certs_der@.len() - i,
    {
        let cert = trusted_certs_der[i].clone();
        assert(cert@ =~= trusted_certs_der@[i as int]@);
        builder = match builder.with_trusted_cert_der(cert) {
            Ok(b) => b,
            Err(e) => {
                return Err(OxiHttpError::Tls(error_text(&e)));
            },
        };
        assert(cert_bytes(trusted_certs_der@.take(i + 1)) =~= cert_bytes(
            trusted_certs_der@.take(i as int),
        ).push(trusted_certs_der@[i as int]@));
        i += 1;
    }
    assert(trusted_certs_der@.take(i as int) =~= trusted_certs_der@);
    if alpn.len() > 0 {
        builder = with_alpn_protocols(builder, alpn);
    }
    if accept_invalid {
        builder = builder.with_danger_accept_invalid_certs();
    }
    if let Some(path) = key_log_path {
        builder = builder.with_key_log_file(path);
    }
    if early_data {
        builder = builder.with_early_data();
    }
    assert(builder_settings(builder) =~= (TlsSettings {
        tls12: true,
        webpki_roots,
        trusted_certs: cert_bytes(trusted_certs_der@),
        alpn: protocol_bytes(alpn@),
        accept_invalid,
        key_log: key_log_path,
        early_data,
    }));
    match builder.build() {
        Ok(cfg) => Ok(connector_from(cfg)),
        Err(e) => Err(OxiHttpError::Tls(error_text(&e))),
    }
}

/// Changes to what a client trusts, for some of its requests.
#[derive(Debug)]
pub struct RequestTlsConfig {
    /// The CA certificates to trust in place of those of the client, DER-encoded; none to keep
    /// those.
    pub trusted_cert_ders: Vec<Vec<u8>>,
    /// Whether certificates are not verified.
    pub accept_invalid_certs: bool,
}

/// All that is needed to set up the connections of a client anew. `V` verifies certificates, `H`
/// are the settings of HTTP/2.
pub struct TlsRebuildConfig<V, H> {
    pub trusted_certs_der: Vec<Vec<u8>>,
    pub alpn: Vec<String>,
    pub accept_invalid_certs: bool,
    pub use_webpki_roots: bool,
    pub key_log_path: Option<PathBuf>,
    pub early_data: bool,
    pub connect_timeout: Option<Duration>,
    pub tcp_nodelay: Option<bool>,
    pub tcp_keepalive: Option<Duration>,
    pub http2_settings: Option<H>,
    pub pool_max_idle_per_host: Option<usize>,
    pub pool_idle_timeout: Option<Duration>,
    /// A verifier of its own; where there is one, it counts in place of all other trust.
    pub custom_cert_verifier: Option<V>,
}

impl<V, H> TlsRebuildConfig<V, H> {
    /// The settings with changes to what is trusted: certificates that are given replace those of
    /// the client, and verification is off where either side turns it off.
    pub open spec fn with_override(self, o: RequestTlsConfig) -> Self {
        TlsRebuildConfig {
            trusted_certs_der: if o.trusted_cert_ders@.len() == 0 {
                self.trusted_certs_der
            } else {
                o.trusted_cert_ders
            },
            accept_invalid_certs: self.accept_invalid_certs || o.accept_invalid_certs,
            ..self
        }
    }

    /// Changes what is trusted.
    pub fn merge(self, override_cfg: RequestTlsConfig) -> (r: Self)
        ensures
            r == self.with_override(override_cfg),
    {
        let certs = if override_cfg.trusted_cert_ders.len() == 0 {
            self.trusted_certs_der
        } else {
            override_cfg.trusted_cert_ders
        };
        TlsRebuildConfig {
            trusted_certs_der: certs,
            accept_invalid_certs: self.accept_invalid_certs || override_cfg.accept_invalid_certs,
            ..self
        }
    }

    /// What the connector is set up with, where there is no verifier of its own.
    pub open spec fn settings(self) -> TlsSettings {
        TlsSettings {
            tls12: true,
            webpki_roots: self.use_webpki_roots,
            trusted_certs: cert_bytes(self.trusted_certs_der@),
            alpn: protocol_bytes(self.alpn@),
            accept_invalid: self.accept_invalid_certs,
            key_log: self.key_log_path,
            early_data: self.early_data,
        }
    }

    /// Sets up the connector; `None` where the client has a verifier of its own, which then comes
    /// first.
    pub fn connector(&self) -> (r: Result<Option<TlsConnector>, OxiHttpError>)
        ensures
            self.connected(r),
    {
        if self.custom_cert_verifier.is_some() {
            return Ok(None);
        }
        let key_log = match &self.key_log_path {
            Some(path) => Some(path.clone()),
            None => None,
        };
        match build_tls_connector(
            &self.trusted_certs_der,
            &self.alpn,
            self.accept_invalid_certs,
            self.use_webpki_roots,
            key_log,
            self.early_data,
        ) {
            Ok(c) => Ok(Some(c)),
            Err(e) => Err(e),
        }
    }

    /// Sets up how connections are made: any scheme is accepted, and what the settings say counts.
    pub fn apply_connect_settings(&self, http: &mut HttpConnector)
        ensures
            connect_settings(*final(http)) == (ConnectSettings {
                enforce_http: false,
                connect_timeout: match self.connect_timeout {
                    Some(dur) => Some(dur),
                    None => connect_settings(*old(http)).connect_timeout,
                },
                nodelay: match self.tcp_nodelay {
                    Some(nodelay) => nodelay,
                    None => connect_settings(*old(http)).nodelay,
                },
                keepalive: match self.tcp_keepalive {
                    Some(ka) => Some(ka),
                    None => connect_settings(*old(http)).keepalive,
                },
            }),
    {
        enforce_http(http, false);
        if let Some(dur) = self.connect_timeout {
            set_connect_timeout(http, Some(dur));
        }
        if let Some(nodelay) = self.tcp_nodelay {
            set_nodelay(http, nodelay);
        }
        if let Some(ka) = self.tcp_keepalive {
            set_keepalive(http, Some(ka));
        }
    }

    /// Sets up how connections are kept.
    pub fn apply_pool_settings(&self, hb: &mut Builder)
        ensures
            pool_settings(*final(hb)) == (PoolSettings {
                max_idle_per_host: match self.pool_max_idle_per_host {
                    Some(n) => n,
                    None => pool_settings(*old(hb)).max_idle_per_host,
                },
                idle_timeout: match self.pool_idle_timeout {
                    Some(dur) => Some(dur),
                    None => pool_settings(*old(hb)).idle_timeout,
                },
            }),
    {
        if let Some(n) = self.pool_max_idle_per_host {
            set_pool_max_idle_per_host(hb, n);
        }
        if let Some(dur) = self.pool_idle_timeout {
            set_pool_idle_timeout(hb, dur);
        }
    }

    /// What setting up the connector comes to.
    pub open spec fn connected(self, r: Result<Option<TlsConnector>, OxiHttpError>) -> bool {
        match r {
            Ok(None) => self.custom_cert_verifier is Some,
            Ok(Some(c)) => self.custom_cert_verifier is None && set_up(self.settings(), Ok(c)),
            Err(e) => self.custom_cert_verifier is None && set_up(self.settings(), Err(e)),
        }
    }
}

/// The settings of a client that trusts what `override_cfg` says, and otherwise is like one with
/// the settings `base`; with them the connector that they are for, `None` where there is a verifier
/// of its own.
pub fn with_request_tls_config<V, H>(
    base: Option<TlsRebuildConfig<V, H>>,
    override_cfg: RequestTlsConfig,
) -> (r: Result<(TlsRebuildConfig<V, H>, Option<TlsConnector>), OxiHttpError>)
    ensures
        match base {
            Some(b) => match r {
                Ok((n, c)) => n == b.with_override(override_cfg) && n.connected(Ok(c)),
                Err(e) => b.with_override(override_cfg).connected(Err(e)),
            },
            None => r matches Err(e) && e@ == (
                ErrorKind::Tls,
                "client has no TLS rebuild config (was it built with build_https()?)"@,
            ),
        },
{
    match base {
        Some(b) => {
            let merged = b.merge(override_cfg);
            match merged.connector() {
                Ok(c) => Ok((merged, c)),
                Err(e) => Err(e),
            }
        },
        None => Err(
            OxiHttpError::Tls(
                "client has no TLS rebuild config (was it built with build_https()?)".to_owned(),
            ),
        ),
    }
}

/// An override on a client that has one already starts from what that one said: its certificates
/// count unless there are new ones, and verification that was turned off stays off.
pub proof fn law_overrides_accumulate<V, H>(
    base: TlsRebuildConfig<V, H>,
    first: RequestTlsConfig,
    second: RequestTlsConfig,
)
    ensures
        ({
            let both = base.with_override(first).with_override(second);
            &&& both.trusted_certs_der == if second.trusted_cert_ders@.len() > 0 {
                second.trusted_cert_ders
            } else {
                base.with_override(first).trusted_certs_der
            }
            &&& both.accept_invalid_certs == (base.accept_invalid_certs
                || first.accept_invalid_certs || second.accept_invalid_certs)
            &&& both.custom_cert_verifier == base.custom_cert_verifier
        }),
{
}

/// An override that says nothing changes nothing.
pub proof fn law_empty_override<V, H>(base: TlsRebuildConfig<V, H>, o: RequestTlsConfig)
    requires
        o.trusted_cert_ders@.len() == 0,
        !o.accept_invalid_certs,
    ensures
        base.with_override(o) == base,
{
}

} // verus!
