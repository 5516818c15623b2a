//! Owner-operated relay settings: the rules a relay's configuration meets before it serves.
//!
//! Addresses are plain values: an IP address as sixteen bytes (an IPv4 address in the last
//! four), a family flag and a port. URLs are read through one parse, whose parts the rules test.

use crate::text::{all_hex, is_hex_of_len, text_eq, utf8};
use iroh_base::RelayUrl;
use url::Host;
use vstd::prelude::*;

verus! {

broadcast use vstd::string::group_string_axioms, vstd::array::group_array_axioms;

/// The only path a controller serves relay-access manifests at.
pub const RELAY_ACCESS_ROUTE: &'static str = "/v1/mesh/relay-access";
/// The least per-client relay rate: one MiB per second.
pub const MIN_RATE_BYTES_PER_SECOND: u32 = 1048576;
/// The greatest per-client relay rate: one GiB per second.
pub const MAX_RATE_BYTES_PER_SECOND: u32 = 1073741824;

/// A socket address as plain values. For IPv4 the address is `ip[12..16]` and the other bytes,
/// flow information and scope are not part of it.
#[derive(Debug, Clone, Copy)]
pub struct BindAddr {
    pub ip: [u8; 16],
    pub v4: bool,
    pub port: u16,
    pub flowinfo: u32,
    pub scope_id: u32,
}

/// Whether sixteen bytes are the IPv6 loopback address `::1`.
pub open spec fn is_ipv6_loopback(o: Seq<u8>) -> bool {
    &&& o.len() == 16
    &&& forall|j: int| 0 <= j < 15 ==> #[trigger] o[j] == 0
    &&& o[15] == 1
}

/// Whether a socket address is on the loopback network: `127.0.0.0/8`, or `::1`.
pub open spec fn bind_loopback(a: BindAddr) -> bool {
    if a.v4 {
        a.ip@[12] == 127
    } else {
        is_ipv6_loopback(a.ip@)
    }
}

/// Whether two socket addresses are the same socket: same family and port, and the same address
/// (for IPv6 also the same flow information and scope).
pub open spec fn same_socket(a: BindAddr, b: BindAddr) -> bool {
    &&& a.v4 == b.v4
    &&& a.port == b.port
    &&& if a.v4 {
        forall|j: int| 12 <= j < 16 ==> #[trigger] a.ip@[j] == b.ip@[j]
    } else {
        a.ip@ == b.ip@ && a.flowinfo == b.flowinfo && a.scope_id == b.scope_id
    }
}

impl BindAddr {
    /// Whether the address is on the loopback network.
    pub fn is_loopback(&self) -> (r: bool)
        ensures
            r == bind_loopback(*self),
    {
        if self.v4 {
            return self.ip[12] == 127;
        }
        let mut k: usize = 0;
        while k < 15
            invariant
                k <= 15,
                !self.v4,
                forall|j: int| 0 <= j < k ==> self.ip@[j] == 0,
            decreases 15 - k,
        {
            if self.ip[k] != 0 {
                assert(self.ip@[k as int] != 0);
                return false;
            }
            k = k + 1;
        }
        self.ip[15] == 1
    }

    /// Whether two socket addresses are the same socket.
    pub fn same_socket_as(&self, other: &BindAddr) -> (r: bool)
        ensures
            r == same_socket(*self, *other),
    {
        if self.v4 != other.v4 || self.port != other.port {
            return false;
        }
        let start: usize = if self.v4 { 12 } else { 0 };
        let mut k: usize = start;
        while k < 16
            invariant
                start <= k <= 16,
                start == (if self.v4 { 12usize } else { 0usize }),
                self.v4 == other.v4,
                self.port == other.port,
                forall|j: int| start <= j < k ==> self.ip@[j] == other.ip@[j],
            decreases 16 - k,
        {
            if self.ip[k] != other.ip[k] {
                assert(self.ip@[k as int] != other.ip@[k as int]);
                return false;
            }
            k = k + 1;
        }
        proof {
            if !self.v4 {
                assert(self.ip@ =~= other.ip@);
            }
        }
        self.v4 || (self.flowinfo == other.flowinfo && self.scope_id == other.scope_id)
    }
}

/// The host of a parsed URL.
#[derive(Debug, Clone, PartialEq, Eq)]
pub enum UrlHost {
    Missing,
    Domain(String),
    Ipv4([u8; 4]),
    Ipv6([u8; 16]),
}

/// A URL host as plain values.
pub enum UrlHostView {
    Missing,
    Domain(Seq<char>),
    Ipv4(Seq<u8>),
    Ipv6(Seq<u8>),
}

impl UrlHost {
    pub open spec fn view_spec(&self) -> UrlHostView {
        match self {
            UrlHost::Missing => UrlHostView::Missing,
            UrlHost::Domain(d) => UrlHostView::Domain(d@),
            UrlHost::Ipv4(o) => UrlHostView::Ipv4(o@),
            UrlHost::Ipv6(o) => UrlHostView::Ipv6(o@),
        }
    }
}

/// The parts of a parsed URL that the relay rules read.
#[derive(Debug, Clone, PartialEq, Eq)]
pub struct RelayUrlParts {
    pub scheme: String,
    pub username: String,
    pub has_password: bool,
    pub has_query: bool,
    pub has_fragment: bool,
    pub host: UrlHost,
    pub path: String,
}

/// The parts of a parsed URL as plain values.
pub struct RelayUrlPartsView {
    pub scheme: Seq<char>,
    pub username: Seq<char>,
    pub has_password: bool,
    pub has_query: bool,
    pub has_fragment: bool,
    pub host: UrlHostView,
    pub path: Seq<char>,
}

impl RelayUrlParts {
    pub open spec fn view_spec(&self) -> RelayUrlPartsView {
        RelayUrlPartsView {
            scheme: self.scheme@,
            username: self.username@,
            has_password: self.has_password,
            has_query: self.has_query,
            has_fragment: self.has_fragment,
            host: self.host.view_spec(),
            path: self.path@,
        }
    }
}

/// What parsing a text as a relay URL gives: nothing where it does not parse, else the parts of
/// the URL.
pub uninterp spec fn relay_url_parts_of(url: Seq<char>) -> Option<RelayUrlPartsView>;

/// Parse a text with `RelayUrl::from_str` (which is `url::Url::parse`) and read the parsed URL's
/// scheme, user name, whether it has a password, a query or a fragment, its host and its path.
/// Which texts parse, and into which parts, is named by `relay_url_parts_of`, not stated.
#[verifier::external_body]
pub(crate) fn relay_url_parts(url: &str) -> (r: Option<RelayUrlParts>)
    ensures
        match r {
            Some(p) => relay_url_parts_of(url@) == Some(p.view_spec()),
            None => relay_url_parts_of(url@) is None,
        },
{
    let u = url.parse::<RelayUrl>().ok()?;
    let host = match u.host() {
        Some(Host::Domain(d)) => UrlHost::Domain(d.to_string()),
        Some(Host::Ipv4(a)) => UrlHost::Ipv4(a.octets()),
        Some(Host::Ipv6(a)) => UrlHost::Ipv6(a.octets()),
        None => UrlHost::Missing,
    };
    Some(RelayUrlParts {
        scheme: u.scheme().to_string(),
        username: u.username().to_string(),
        has_password: u.password().is_some(),
        has_query: u.query().is_some(),
        has_fragment: u.fragment().is_some(), host,
        path: u.path().to_string(),
    })
}

/// TLS served by the relay itself.
#[derive(Debug, Clone)]
pub struct ManualTlsConfigV1 {
    pub https_bind_addr: BindAddr,
    pub certificate_path: String,
    pub private_key_path: String,
}

/// Where the relay learns which endpoints it may carry.
#[derive(Debug, Clone)]
pub enum RelayAccessSourceV1 {
    /// The controller's protected manifest route on a loopback address, with a bearer token file.
    ControllerLoopback { url: String, token_file: String },
    /// A signed manifest file.
    SignedFile { path: String },
}

/// The configuration of an owner-operated relay.
#[derive(Debug, Clone)]
pub struct OwnerRelayConfigV1 {
    pub schema: String,
    pub public_url: String,
    pub http_bind_addr: BindAddr,
    pub tls: Option<ManualTlsConfigV1>,
    pub quic_bind_addr: Option<BindAddr>,
    pub metrics_bind_addr: Option<BindAddr>,
    pub governor_public_key: String,
    pub access_source: RelayAccessSourceV1,
    pub snapshot_cache_seconds: u64,
    pub client_rx_bytes_per_second: u32,
    pub client_rx_max_burst_bytes: u32,
    pub key_cache_capacity: usize,
    pub max_connections_per_endpoint: u16,
    pub max_total_connections: u32,
}

/// Why a relay configuration is refused.
#[derive(Debug, Clone, Copy, PartialEq, Eq, Structural)]
pub enum RelayConfigError {
    UnsupportedSchema,
    InvalidGovernorKey,
    InvalidPublicUrl,
    PublicUrlNotHttps,
    PublicUrlHasExtras,
    PlainListenerNotLoopback,
    QuicWithoutTls,
    ListenersShareSocket,
    MetricsNotLoopback,
    SnapshotCacheOutOfRange,
    ClientRateOutOfRange,
    BurstOutOfRange,
    KeyCacheOutOfRange,
    EndpointConnectionsOutOfRange,
    TotalConnectionsInvalid,
    InvalidManifestUrl,
    ManifestUrlScheme,
    ManifestUrlMissingHost,
    ManifestHostNotIp,
    ManifestUrlNotLoopback,
    ManifestUrlNotRoute,
    EmptyTokenFile,
    EmptyManifestPath,
}

/// Whether a URL host is a loopback IP address (`127.0.0.0/8` or `::1`).
pub open spec fn host_loopback(h: UrlHostView) -> bool {
    match h {
        UrlHostView::Ipv4(o) => o[0] == 127,
        UrlHostView::Ipv6(o) => is_ipv6_loopback(o),
        _ => false,
    }
}

/// Whether a parsed URL carries no credentials, query or fragment.
pub open spec fn url_plain(u: RelayUrlPartsView) -> bool {
    u.username.len() == 0 && !u.has_password && !u.has_query && !u.has_fragment
}

/// What validating an access source answers. A controller source needs an `http` or `https`
/// URL whose host is a loopback IP address (a URL of either scheme whose host is a domain
/// names no address) at exactly the relay-access route, with no credentials, query or
/// fragment, and a token file; a signed file source needs a path.
pub open spec fn access_source_verdict(s: RelayAccessSourceV1) -> Result<(), RelayConfigError> {
    match s {
        RelayAccessSourceV1::ControllerLoopback { url, token_file } => match relay_url_parts_of(url@) {
            None => Err(RelayConfigError::InvalidManifestUrl),
            Some(u) => if !(u.scheme == "http"@ || u.scheme == "https"@) {
                Err(RelayConfigError::ManifestUrlScheme)
            } else if u.host is Missing {
                Err(RelayConfigError::ManifestUrlMissingHost)
            } else if u.host is Domain {
                Err(RelayConfigError::ManifestHostNotIp)
            } else if !host_loopback(u.host) {
                Err(RelayConfigError::ManifestUrlNotLoopback)
            } else if !(u.path == RELAY_ACCESS_ROUTE@ && url_plain(u)) {
                Err(RelayConfigError::ManifestUrlNotRoute)
            } else if token_file@.len() == 0 {
                Err(RelayConfigError::EmptyTokenFile)
            } else {
                Ok(())
            },
        },
        RelayAccessSourceV1::SignedFile { path } => if path@.len() == 0 {
            Err(RelayConfigError::EmptyManifestPath)
        } else {
            Ok(())
        },
    }
}

/// Four times `rate`, saturating at `u32::MAX`.
pub open spec fn four_times_saturating(rate: int) -> int {
    if rate * 4 > u32::MAX { u32::MAX as int } else { rate * 4 }
}

/// Whether the per-client rate, burst, key cache and connection limits are in range.
pub open spec fn relay_limits_verdict(c: OwnerRelayConfigV1) -> Result<(), RelayConfigError> {
    if !(1 <= c.snapshot_cache_seconds <= 30) {
        Err(RelayConfigError::SnapshotCacheOutOfRange)
    } else if !(MIN_RATE_BYTES_PER_SECOND <= c.client_rx_bytes_per_second <= MAX_RATE_BYTES_PER_SECOND) {
        Err(RelayConfigError::ClientRateOutOfRange)
    } else if !(c.client_rx_max_burst_bytes >= c.client_rx_bytes_per_second
        && c.client_rx_max_burst_bytes <= four_times_saturating(c.client_rx_bytes_per_second as int)) {
        Err(RelayConfigError::BurstOutOfRange)
    } else if !(128 <= c.key_cache_capacity <= 65536) {
        Err(RelayConfigError::KeyCacheOutOfRange)
    } else if !(1 <= c.max_connections_per_endpoint <= 64) {
        Err(RelayConfigError::EndpointConnectionsOutOfRange)
    } else if !(1 <= c.max_total_connections <= 65536 && c.max_total_connections >= c.max_connections_per_endpoint) {
        Err(RelayConfigError::TotalConnectionsInvalid)
    } else {
        Ok(())
    }
}

/// Whether the listeners are safe: the plain HTTP listener on loopback, QUIC only with built-in
/// TLS, HTTPS on another socket than HTTP, and metrics on loopback.
pub open spec fn relay_listeners_verdict(c: OwnerRelayConfigV1) -> Result<(), RelayConfigError> {
    if !bind_loopback(c.http_bind_addr) {
        Err(RelayConfigError::PlainListenerNotLoopback)
    } else if c.tls is None && c.quic_bind_addr is Some {
        Err(RelayConfigError::QuicWithoutTls)
    } else if c.tls is Some && same_socket(c.tls->0.https_bind_addr, c.http_bind_addr) {
        Err(RelayConfigError::ListenersShareSocket)
    } else if c.metrics_bind_addr is Some && !bind_loopback(c.metrics_bind_addr->0) {
        Err(RelayConfigError::MetricsNotLoopback)
    } else {
        Ok(())
    }
}

/// What validating a relay configuration answers, rule by rule in this order: the schema; the
/// Governor key as 64 hex digits; the public URL parses, uses HTTPS and carries no credentials,
/// query or fragment; the listeners; the limits; the access source.
pub open spec fn relay_config_verdict(c: OwnerRelayConfigV1) -> Result<(), RelayConfigError> {
    if c.schema@ != OwnerRelayConfigV1::SCHEMA@ {
        Err(RelayConfigError::UnsupportedSchema)
    } else if !(utf8(c.governor_public_key@).len() == 64 && all_hex(utf8(c.governor_public_key@))) {
        Err(RelayConfigError::InvalidGovernorKey)
    } else {
        match relay_url_parts_of(c.public_url@) {
            None => Err(RelayConfigError::InvalidPublicUrl),
            Some(u) => if u.scheme != "https"@ {
                Err(RelayConfigError::PublicUrlNotHttps)
            } else if !url_plain(u) {
                Err(RelayConfigError::PublicUrlHasExtras)
            } else if relay_listeners_verdict(c) is Err {
                relay_listeners_verdict(c)
            } else if relay_limits_verdict(c) is Err {
                relay_limits_verdict(c)
            } else {
                access_source_verdict(c.access_source)
            },
        }
    }
}

/// Whether a relay configuration meets every rule: the current schema; a 64-hex-digit Governor
/// key; an HTTPS public URL that parses, with no credentials, query or fragment; loopback-only
/// plain and metrics listeners; QUIC only with built-in TLS; distinct HTTPS and HTTP sockets;
/// limits in range; and an access source that is a manifest URL on a loopback IP at the exact
/// route with a token file, or a signed file with a path.
pub open spec fn owner_relay_config_ok(c: OwnerRelayConfigV1) -> bool {
    &&& c.schema@ == OwnerRelayConfigV1::SCHEMA@
    &&& utf8(c.governor_public_key@).len() == 64 && all_hex(utf8(c.governor_public_key@))
    &&& relay_url_parts_of(c.public_url@) matches Some(u) && u.scheme == "https"@ && url_plain(u)
    &&& bind_loopback(c.http_bind_addr)
    &&& (c.tls is None ==> c.quic_bind_addr is None)
    &&& (c.tls matches Some(t) ==> !same_socket(t.https_bind_addr, c.http_bind_addr))
    &&& (c.metrics_bind_addr matches Some(m) ==> bind_loopback(m))
    &&& relay_limits_verdict(c) is Ok
    &&& access_source_verdict(c.access_source) is Ok
}

impl RelayAccessSourceV1 {
    /// Validate an access source.
    pub fn validate(&self) -> (r: Result<(), RelayConfigError>)
        ensures
            r == access_source_verdict(*self),
    {
        match self {
            RelayAccessSourceV1::ControllerLoopback { url, token_file } => {
                let u = match relay_url_parts(url.as_str()) {
                    None => return Err(RelayConfigError::InvalidManifestUrl),
                    Some(u) => u,
                };
                if !(text_eq(u.scheme.as_str(), "http") || text_eq(u.scheme.as_str(), "https")) {
                    return Err(RelayConfigError::ManifestUrlScheme);
                }
                let loopback = match &u.host {
                    UrlHost::Missing => return Err(RelayConfigError::ManifestUrlMissingHost),
                    UrlHost::Domain(_) => return Err(RelayConfigError::ManifestHostNotIp),
                    UrlHost::Ipv4(o) => o[0] == 127,
                    UrlHost::Ipv6(o) => {
                        let mut zero = true;
                        let mut k: usize = 0;
                        while k < 15
                            invariant
                                k <= 15,
                                zero == forall|j: int| 0 <= j < k ==> o@[j] == 0,
                            decreases 15 - k,
                        {
                            if o[k] != 0 {
                                zero = false;
                            }
                            k = k + 1;
                        }
                        zero && o[15] == 1
                    },
                };
                if !loopback {
                    return Err(RelayConfigError::ManifestUrlNotLoopback);
                }
                if !(text_eq(u.path.as_str(), RELAY_ACCESS_ROUTE) && u.username.as_str().is_empty() && !u.has_password && !u.has_query && !u.has_fragment) {
                    return Err(RelayConfigError::ManifestUrlNotRoute);
                }
                if token_file.as_str().is_empty() {
                    return Err(RelayConfigError::EmptyTokenFile);
                }
                Ok(())
            },
            RelayAccessSourceV1::SignedFile { path } => {
                if path.as_str().is_empty() {
                    return Err(RelayConfigError::EmptyManifestPath);
                }
                Ok(())
            },
        }
    }
}

impl OwnerRelayConfigV1 {
    pub const SCHEMA: &'static str = "rampage.owner-relay-config.v1";

    /// A relay behind a TLS-terminating reverse proxy: plain HTTP on `http_bind_addr`, no
    /// built-in TLS, QUIC or metrics, access from the controller's loopback manifest route, and
    /// the default limits (5 s snapshot cache, 64 MiB/s per client with a 128 MiB burst, 4096
    /// cached keys, 8 connections per endpoint, 1024 in all).
    pub fn reverse_proxy(
        public_url: String,
        governor_public_key: String,
        controller_manifest_url: String,
        controller_token_file: String,
        http_bind_addr: BindAddr,
    ) -> (r: Self)
        ensures
            r.schema@ == Self::SCHEMA@,
            r.public_url == public_url,
            r.http_bind_addr == http_bind_addr,
            r.tls is None,
            r.quic_bind_addr is None,
            r.metrics_bind_addr is None,
            r.governor_public_key == governor_public_key,
            r.access_source == (RelayAccessSourceV1::ControllerLoopback { url: controller_manifest_url, token_file: controller_token_file }),
            r.snapshot_cache_seconds == 5,
            r.client_rx_bytes_per_second == 67108864,
            r.client_rx_max_burst_bytes == 134217728,
            r.key_cache_capacity == 4096,
            r.max_connections_per_endpoint == 8,
            r.max_total_connections == 1024,
    {
        OwnerRelayConfigV1 {
            schema: Self::SCHEMA.to_string(),
            public_url,
            http_bind_addr,
            tls: None,
            quic_bind_addr: None,
            metrics_bind_addr: None,
            governor_public_key,
            access_source: RelayAccessSourceV1::ControllerLoopback { url: controller_manifest_url, token_file: controller_token_file },
            snapshot_cache_seconds: 5,
            client_rx_bytes_per_second: 67108864,
            client_rx_max_burst_bytes: 134217728,
            key_cache_capacity: 4096,
            max_connections_per_endpoint: 8,
            max_total_connections: 1024,
        }
    }

    /// Validate the configuration, answering the first rule it breaks.
    pub fn validate(&self) -> (r: Result<(), RelayConfigError>)
        ensures
            r == relay_config_verdict(*self),
            r is Ok <==> owner_relay_config_ok(*self),
    {
        if !text_eq(self.schema.as_str(), Self::SCHEMA) {
            return Err(RelayConfigError::UnsupportedSchema);
        }
        if !is_hex_of_len(self.governor_public_key.as_str(), 64) {
            return Err(RelayConfigError::InvalidGovernorKey);
        }
        let u = match relay_url_parts(self.public_url.as_str()) {
            None => return Err(RelayConfigError::InvalidPublicUrl),
            Some(u) => u,
        };
        if !text_eq(u.scheme.as_str(), "https") {
            return Err(RelayConfigError::PublicUrlNotHttps);
        }
        if !(u.username.as_str().is_empty() && !u.has_password && !u.has_query && !u.has_fragment) {
            return Err(RelayConfigError::PublicUrlHasExtras);
        }
        if !self.http_bind_addr.is_loopback() {
            return Err(RelayConfigError::PlainListenerNotLoopback);
        }
        if self.tls.is_none() && self.quic_bind_addr.is_some() {
            return Err(RelayConfigError::QuicWithoutTls);
        }
        if let Some(tls) = &self.tls {
            if tls.https_bind_addr.same_socket_as(&self.http_bind_addr) {
                return Err(RelayConfigError::ListenersShareSocket);
            }
        }
        if let Some(metrics) = &self.metrics_bind_addr {
            if !metrics.is_loopback() {
                return Err(RelayConfigError::MetricsNotLoopback);
            }
        }
        if !(1 <= self.snapshot_cache_seconds && self.snapshot_cache_seconds <= 30) {
            return Err(RelayConfigError::SnapshotCacheOutOfRange);
        }
        let rate = self.client_rx_bytes_per_second;
        if !(MIN_RATE_BYTES_PER_SECOND <= rate && rate <= MAX_RATE_BYTES_PER_SECOND) {
            return Err(RelayConfigError::ClientRateOutOfRange);
        }
        let burst = self.client_rx_max_burst_bytes;
        let most: u32 = if rate > 1073741823 { u32::MAX } else { rate * 4 };
        if !(burst >= rate && burst <= most) {
            return Err(RelayConfigError::BurstOutOfRange);
        }
        if !(128 <= self.key_cache_capacity && self.key_cache_capacity <= 65536) {
            return Err(RelayConfigError::KeyCacheOutOfRange);
        }
        if !(1 <= self.max_connections_per_endpoint && self.max_connections_per_endpoint <= 64) {
            return Err(RelayConfigError::EndpointConnectionsOutOfRange);
        }
        let total = self.max_total_connections;
        if !(1 <= total && total <= 65536 && total >= self.max_connections_per_endpoint as u32) {
            return Err(RelayConfigError::TotalConnectionsInvalid);
        }
        self.access_source.validate()
    }
}

} // verus!
