//! Peer mesh policy: which relays a node may use and which authenticated peers it admits.
//!
//! Transport (QUIC, endpoint identities, NAT traversal) belongs to the caller. Public default
//! relays are never selected: a node either talks directly or through relays it names.

use crate::protocol::MeshEndpointRecordV1;
use crate::text::{bytes_starts_with, contains_text, has_prefix, text_eq, utf8, vec_contains_text};
use crate::controller::{bytes_lt, lemma_text_lt_total, lemma_text_lt_transitive, text_lt};
use crate::relay::{relay_url_parts, relay_url_parts_of};
use vstd::prelude::*;

verus! {

broadcast use vstd::string::group_string_axioms;

pub const MESH_CONFIG_SCHEMA: &'static str = "rampage.mesh-config.v1";

#[derive(Debug, Clone, PartialEq, Eq)]
pub enum MeshMode {
    /// Direct IP/QUIC only.
    LocalOnly,
    /// A relay operated by Rampage or the owner; never a public relay fleet.
    PrivateRelay { urls: Vec<String> },
}

#[derive(Debug, Clone, PartialEq, Eq)]
pub struct MeshConfig {
    pub schema: String,
    pub mode: MeshMode,
    /// Authenticated endpoint public keys admitted by the enrollment ledger.
    pub allowed_peer_keys: PeerKeySet,
}

/// A set of authenticated endpoint public keys: each key is held once.
#[derive(Debug, Clone, PartialEq, Eq)]
pub struct PeerKeySet {
    keys: Vec<String>,
}

impl PeerKeySet {
    /// Keys are held once each, in byte order.
    pub closed spec fn wf(&self) -> bool {
        forall|i: int, j: int| 0 <= i < j < self.keys@.len() ==> text_lt(utf8((#[trigger] self.keys@[i])@), utf8((#[trigger] self.keys@[j])@))
    }

    /// The keys held.
    pub closed spec fn members(&self) -> Set<Seq<char>> {
        Set::new(|k: Seq<char>| contains_text(self.keys@, k))
    }

    /// The empty set.
    pub fn new() -> (r: Self)
        ensures
            r.wf(),
            r.members() == Set::<Seq<char>>::empty(),
    {
        let r = PeerKeySet { keys: Vec::new() };
        assert(r.members() =~= Set::<Seq<char>>::empty());
        r
    }

    /// Whether `key` is held.
    pub fn contains(&self, key: &str) -> (r: bool)
        ensures
            r == self.members().contains(key@),
    {
        vec_contains_text(&self.keys, key)
    }

    /// Add `key`; answers whether it was new. A key already held is not added twice, and the
    /// keys stay in byte order.
    pub fn insert(&mut self, key: String) -> (r: bool)
        requires
            old(self).wf(),
        ensures
            final(self).wf(),
            r == !old(self).members().contains(key@),
            final(self).members() == old(self).members().insert(key@),
    {
        if vec_contains_text(&self.keys, key.as_str()) {
            proof {
                assert(self.members() =~= self.members().insert(key@));
            }
            return false;
        }
        let ghost before = self.members();
        let ghost old_keys = self.keys@;
        let ghost k = key@;
        let mut pos: usize = 0;
        let mut before_here = false;
        while !before_here && pos < self.keys.len()
            invariant
                pos <= old_keys.len(),
                self.keys@ == old_keys,
                key@ == k,
                !contains_text(old_keys, k),
                forall|t: int| 0 <= t < pos ==> text_lt(utf8((#[trigger] old_keys[t])@), utf8(k)),
                before_here ==> pos < old_keys.len() && text_lt(utf8(k), utf8(old_keys[pos as int]@)),
            decreases old_keys.len() - pos + (if before_here { 0int } else { 1int }),
        {
            let kb = key.as_str().as_bytes();
            let ob = self.keys[pos].as_str().as_bytes();
            proof {
                assert(kb@ == utf8(k));
                assert(ob@ == utf8(old_keys[pos as int]@));
            }
            if bytes_lt(kb, ob) {
                before_here = true;
            } else {
                proof {
                    assert(old_keys[pos as int]@ != k);
                    vstd::utf8::encode_utf8_decode_utf8(k);
                    vstd::utf8::encode_utf8_decode_utf8(old_keys[pos as int]@);
                    lemma_text_lt_total(utf8(old_keys[pos as int]@), utf8(k));
                }
                pos = pos + 1;
            }
        }
        self.keys.insert(pos, key);
        proof {
            assert(self.keys@ == old_keys.insert(pos as int, self.keys@[pos as int]));
            assert forall|x: Seq<char>| #[trigger] self.members().contains(x) == before.insert(k).contains(x) by {
                if contains_text(self.keys@, x) {
                    let i = choose|i: int| 0 <= i < self.keys@.len() && (#[trigger] self.keys@[i])@ == x;
                    if i < pos {
                        assert(old_keys[i] == self.keys@[i]);
                    } else if i > pos {
                        assert(old_keys[i - 1] == self.keys@[i]);
                    }
                }
                if contains_text(old_keys, x) {
                    let i = choose|i: int| 0 <= i < old_keys.len() && (#[trigger] old_keys[i])@ == x;
                    if i < pos {
                        assert(self.keys@[i] == old_keys[i]);
                    } else {
                        assert(self.keys@[i + 1] == old_keys[i]);
                    }
                }
                if x == k {
                    assert(self.keys@[pos as int]@ == k);
                }
            }
            assert(self.members() =~= before.insert(k));
            assert forall|i: int, j: int| 0 <= i < j < self.keys@.len() implies text_lt(utf8((#[trigger] self.keys@[i])@), utf8((#[trigger] self.keys@[j])@)) by {
                if j < pos {
                    assert(self.keys@[i] == old_keys[i] && self.keys@[j] == old_keys[j]);
                } else if i > pos {
                    assert(self.keys@[i] == old_keys[i - 1] && self.keys@[j] == old_keys[j - 1]);
                } else if j == pos {
                    assert(self.keys@[i] == old_keys[i]);
                } else if i == pos {
                    assert(self.keys@[j] == old_keys[j - 1]);
                    if j - 1 > pos {
                        lemma_text_lt_transitive(utf8(k), utf8(old_keys[pos as int]@), utf8(old_keys[j - 1]@));
                    }
                } else {
                    assert(self.keys@[i] == old_keys[i] && self.keys@[j] == old_keys[j - 1]);
                }
            }
        }
        true
    }
}

impl Default for MeshConfig {
    fn default() -> (r: Self)
        ensures
            r.schema@ == MESH_CONFIG_SCHEMA@,
            r.mode is LocalOnly,
            r.allowed_peer_keys.wf(),
            r.allowed_peer_keys.members() == Set::<Seq<char>>::empty(),
    {
        MeshConfig { schema: MESH_CONFIG_SCHEMA.to_string(), mode: MeshMode::LocalOnly, allowed_peer_keys: PeerKeySet::new() }
    }
}

#[derive(Debug, Clone, PartialEq, Eq)]
pub enum MeshError {
    WrongSchema,
    MissingRelay,
    InvalidRelay(String),
    PeerDenied,
    InvalidEndpointRecord,
    MismatchedResponse,
    OversizedResponse,
    InvalidArtifactHeader,
    ArtifactSizeMismatch,
    ArtifactRejected(String),
    InvalidModelFrame,
    ModelRejected(String),
}

/// The relays a node's endpoint uses: none at all, or exactly the configured private relays.
#[derive(Debug, Clone, PartialEq, Eq)]
pub enum RelayPlan {
    Disabled,
    Custom(Vec<String>),
}

/// An HTTPS relay URL that parses.
pub open spec fn relay_ok(url: Seq<char>) -> bool {
    has_prefix(utf8(url), utf8("https://"@)) && relay_url_parts_of(url) is Some
}

/// The position of the first relay of a list that is not an HTTPS relay URL that parses.
pub open spec fn first_bad_relay(urls: Seq<String>) -> int {
    choose|i: int| 0 <= i < urls.len() && !relay_ok(urls[i]@) && forall|j: int| 0 <= j < i ==> relay_ok(#[trigger] urls[j]@)
}

/// Whether `r` is what validating a mesh configuration answers: the schema first, then, for
/// private relays, at least one relay and every relay HTTPS and parseable, the first one that is
/// not being named.
pub open spec fn config_verdict(config: MeshConfig, r: Result<(), MeshError>) -> bool {
    if config.schema@ != MESH_CONFIG_SCHEMA@ {
        r == Err::<(), MeshError>(MeshError::WrongSchema)
    } else {
        match config.mode {
            MeshMode::LocalOnly => r is Ok,
            MeshMode::PrivateRelay { urls } => if urls@.len() == 0 {
                r == Err::<(), MeshError>(MeshError::MissingRelay)
            } else if forall|i: int| 0 <= i < urls@.len() ==> relay_ok((#[trigger] urls@[i])@) {
                r is Ok
            } else {
                r matches Err(MeshError::InvalidRelay(u)) && u@ == urls@[first_bad_relay(urls@)]@
            },
        }
    }
}

impl MeshConfig {
    /// Validate the configuration.
    #[verifier::loop_isolation(false)]
    pub fn validate(&self) -> (r: Result<(), MeshError>)
        ensures
            config_verdict(*self, r),
    {
        if !text_eq(self.schema.as_str(), MESH_CONFIG_SCHEMA) {
            return Err(MeshError::WrongSchema);
        }
        match &self.mode {
            MeshMode::LocalOnly => Ok(()),
            MeshMode::PrivateRelay { urls } => {
                if urls.len() == 0 {
                    return Err(MeshError::MissingRelay);
                }
                let mut i: usize = 0;
                while i < urls.len()
                    invariant
                        i <= urls@.len(),
                        forall|j: int| 0 <= j < i ==> relay_ok(#[trigger] urls@[j]@),
                    decreases urls@.len() - i,
                {
                    let url = &urls[i];
                    if !bytes_starts_with(url.as_str().as_bytes(), "https://".as_bytes()) || relay_url_parts(url.as_str()).is_none() {
                        proof {
                            reveal_strlit("https://");
                            assert(!relay_ok(urls@[i as int]@));
                            assert(exists|t: int| 0 <= t < urls@.len() && !relay_ok(urls@[t]@) && forall|j: int| 0 <= j < t ==> relay_ok(#[trigger] urls@[j]@));
                            let k = first_bad_relay(urls@);
                            if k < i {
                                assert(relay_ok(urls@[k]@));
                            }
                            if k > i {
                                assert(relay_ok(urls@[i as int]@));
                            }
                        }
                        return Err(MeshError::InvalidRelay(url.clone()));
                    }
                    i = i + 1;
                }
                Ok(())
            },
        }
    }

    /// Admit a peer only if its authenticated public key is enrolled.
    pub fn authorize_peer(&self, authenticated_public_key: &str) -> (r: Result<(), MeshError>)
        ensures
            r is Ok == self.allowed_peer_keys.members().contains(authenticated_public_key@),
            r is Err ==> r == Err::<(), MeshError>(MeshError::PeerDenied),
    {
        if self.allowed_peer_keys.contains(authenticated_public_key) {
            Ok(())
        } else {
            Err(MeshError::PeerDenied)
        }
    }

    /// The relays the endpoint may use: none in local mode, exactly the configured ones in
    /// private-relay mode, and never a default relay.
    pub fn relay_mode(&self) -> (r: Result<RelayPlan, MeshError>)
        ensures
            match r {
                Ok(plan) => config_verdict(*self, Ok(())) && match self.mode {
                    MeshMode::LocalOnly => plan == RelayPlan::Disabled,
                    MeshMode::PrivateRelay { urls } => plan matches RelayPlan::Custom(v) && v@ == urls@,
                },
                Err(e) => config_verdict(*self, Err(e)),
            },
    {
        self.validate()?;
        match &self.mode {
            MeshMode::LocalOnly => Ok(RelayPlan::Disabled),
            MeshMode::PrivateRelay { urls } => Ok(RelayPlan::Custom(urls.clone())),
        }
    }
}

/// The shape an endpoint advertisement must have before its addresses are resolved: the current
/// schema, unexpired at `now` unless it is a route pinned at enrollment, at most sixteen direct
/// addresses and sixteen relays, none longer than 2048 bytes, and at least one of either.
pub open spec fn endpoint_record_ok(record: MeshEndpointRecordV1, now: i128, pinned: bool) -> bool {
    &&& record.schema@ == MeshEndpointRecordV1::SCHEMA@
    &&& (pinned || record.expires_at > now)
    &&& record.direct_addresses@.len() <= 16
    &&& record.relay_urls@.len() <= 16
    &&& forall|i: int| 0 <= i < record.direct_addresses@.len() ==> utf8((#[trigger] record.direct_addresses@[i])@).len() <= 2048
    &&& forall|i: int| 0 <= i < record.relay_urls@.len() ==> utf8((#[trigger] record.relay_urls@[i])@).len() <= 2048
    &&& record.direct_addresses@.len() + record.relay_urls@.len() > 0
}

fn all_within(v: &Vec<String>, max: usize) -> (r: bool)
    ensures
        r == forall|i: int| 0 <= i < v@.len() ==> utf8((#[trigger] v@[i])@).len() <= max,
{
    let mut i: usize = 0;
    while i < v.len()
        invariant
            i <= v@.len(),
            forall|j: int| 0 <= j < i ==> utf8((#[trigger] v@[j])@).len() <= max,
        decreases v@.len() - i,
    {
        if v[i].as_str().as_bytes().len() > max {
            return false;
        }
        i = i + 1;
    }
    true
}

/// Check an endpoint advertisement's shape at `now`; a pinned route is not held to its
/// advertisement's expiry, as its public key stays the trust anchor.
pub fn check_endpoint_record(record: &MeshEndpointRecordV1, now: i128, pinned: bool) -> (r: Result<(), MeshError>)
    ensures
        r is Ok == endpoint_record_ok(*record, now, pinned),
        r is Err ==> r == Err::<(), MeshError>(MeshError::InvalidEndpointRecord),
{
    if !text_eq(record.schema.as_str(), MeshEndpointRecordV1::SCHEMA) || (!pinned && record.expires_at <= now) {
        return Err(MeshError::InvalidEndpointRecord);
    }
    if record.direct_addresses.len() > 16 || record.relay_urls.len() > 16 || !all_within(&record.direct_addresses, 2048)
        || !all_within(&record.relay_urls, 2048)
    {
        return Err(MeshError::InvalidEndpointRecord);
    }
    if record.direct_addresses.len() == 0 && record.relay_urls.len() == 0 {
        return Err(MeshError::InvalidEndpointRecord);
    }
    Ok(())
}

} // verus!
