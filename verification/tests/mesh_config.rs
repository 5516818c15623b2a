use rampage::mesh::{check_endpoint_record, MeshConfig, MeshError, MeshMode, PeerKeySet, RelayPlan};
use rampage::protocol::MeshEndpointRecordV1;

const NOW: i128 = 1_700_000_000_000_000_000;

#[test]
fn never_falls_back_to_a_public_default_relay() {
    let config = MeshConfig::default();
    assert!(matches!(config.relay_mode().unwrap(), RelayPlan::Disabled));
}

#[test]
fn custom_relay_must_be_explicit_and_https() {
    let mut config = MeshConfig { mode: MeshMode::PrivateRelay { urls: vec![] }, ..MeshConfig::default() };
    assert_eq!(config.validate(), Err(MeshError::MissingRelay));
    config.mode = MeshMode::PrivateRelay { urls: vec!["http://relay.example.test".into()] };
    assert!(matches!(config.validate(), Err(MeshError::InvalidRelay(_))));
}

#[test]
fn private_relays_are_used_exactly_as_configured() {
    let urls = vec!["https://relay.example.test".to_string(), "https://relay-2.example.test".to_string()];
    let config = MeshConfig { mode: MeshMode::PrivateRelay { urls: urls.clone() }, ..MeshConfig::default() };
    assert_eq!(config.validate(), Ok(()));
    assert_eq!(config.relay_mode(), Ok(RelayPlan::Custom(urls)));
    let mixed = MeshConfig {
        mode: MeshMode::PrivateRelay {
            urls: vec!["https://relay.example.test".into(), "https://".into(), "ftp://x".into()],
        },
        ..MeshConfig::default()
    };
    assert_eq!(mixed.validate(), Err(MeshError::InvalidRelay("https://".into())));
    let foreign = MeshConfig { schema: "other".into(), ..MeshConfig::default() };
    assert_eq!(foreign.relay_mode(), Err(MeshError::WrongSchema));
}

#[test]
fn authenticated_transport_identity_is_still_denied_until_enrolled() {
    let mut config = MeshConfig::default();
    assert_eq!(config.authorize_peer("peer-a"), Err(MeshError::PeerDenied));
    config.allowed_peer_keys.insert("peer-a".into());
    assert!(config.authorize_peer("peer-a").is_ok());
}

fn record() -> MeshEndpointRecordV1 {
    MeshEndpointRecordV1 {
        schema: MeshEndpointRecordV1::SCHEMA.into(),
        endpoint_id: "a".repeat(64),
        direct_addresses: vec!["192.0.2.10:4000".into()],
        relay_urls: vec![],
        issued_at: NOW - 1,
        expires_at: NOW + 1,
        signature: "signed".into(),
    }
}

#[test]
fn enrolled_endpoint_pin_survives_advertisement_expiry() {
    let mut advertised = record();
    assert_eq!(check_endpoint_record(&advertised, NOW, false), Ok(()));
    advertised.expires_at = NOW;
    assert_eq!(check_endpoint_record(&advertised, NOW, false), Err(MeshError::InvalidEndpointRecord));
    assert_eq!(check_endpoint_record(&advertised, NOW, true), Ok(()));
    advertised.direct_addresses.clear();
    assert_eq!(check_endpoint_record(&advertised, NOW, true), Err(MeshError::InvalidEndpointRecord));
    let mut crowded = record();
    crowded.direct_addresses = vec!["192.0.2.10:4000".into(); 17];
    assert_eq!(check_endpoint_record(&crowded, NOW, false), Err(MeshError::InvalidEndpointRecord));
}

#[test]
fn peer_keys_form_a_set() {
    let mut config = MeshConfig::default();
    assert!(config.allowed_peer_keys.insert("peer-a".into()));
    assert!(!config.allowed_peer_keys.insert("peer-a".into()));
    assert!(config.allowed_peer_keys.insert("peer-b".into()));
    assert!(config.allowed_peer_keys.contains("peer-a"));
    assert!(config.allowed_peer_keys.contains("peer-b"));
    assert!(!config.allowed_peer_keys.contains("peer-c"));
    assert_eq!(config.authorize_peer("peer-c"), Err(MeshError::PeerDenied));
}

#[test]
fn peer_key_sets_do_not_depend_on_insertion_order() {
    let mut first = PeerKeySet::new();
    let mut second = PeerKeySet::new();
    for key in ["peer-c", "peer-a", "peer-b", "peer-a"] {
        first.insert(key.into());
    }
    for key in ["peer-b", "peer-c", "peer-a"] {
        second.insert(key.into());
    }
    assert_eq!(first, second);
}
