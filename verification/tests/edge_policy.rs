use rampage::edge::{
    device_kind_label, edge_capabilities, edge_offer, parse_device_kind, parse_enrollment_code, pulse_gate,
    EdgeDeviceStatus, EdgeTelemetry, EVAL_SHARD_ADAPTER, HASH_ADAPTER,
};
use rampage::protocol::{DeviceKind, MeshEndpointRecordV1, NodeIdentityV1, ResourceClass, WorkloadIsolation};

const NOW: i128 = 1_700_000_000_000_000_000;

fn healthy() -> EdgeTelemetry {
    EdgeTelemetry {
        platform: "android".into(),
        device_kind: "phone".into(),
        foreground: true,
        donation_requested: true,
        battery_percent: 75,
        on_external_power: false,
        low_power_mode: false,
        thermal_headroom_percent: 80,
    }
}

#[test]
fn telemetry_policy_denies_every_pressure_boundary() {
    assert!(healthy().eligible());
    assert_eq!(healthy().denial(), None);
    for denied in [
        EdgeTelemetry { foreground: false, ..healthy() },
        EdgeTelemetry { donation_requested: false, ..healthy() },
        EdgeTelemetry { battery_percent: 39, ..healthy() },
        EdgeTelemetry { low_power_mode: true, ..healthy() },
        EdgeTelemetry { thermal_headroom_percent: 34, ..healthy() },
        EdgeTelemetry { platform: "windows".into(), ..healthy() },
    ] {
        assert!(!denied.eligible(), "{denied:?}");
        assert!(denied.denial().is_some());
    }
}

#[test]
fn telemetry_denials_name_the_first_failing_signal() {
    assert_eq!(EdgeTelemetry { platform: "windows".into(), ..healthy() }.denial(), Some("unsupported mobile platform"));
    assert_eq!(
        EdgeTelemetry { device_kind: "desktop".into(), ..healthy() }.denial(),
        Some("native device class is not phone or tablet")
    );
    assert_eq!(EdgeTelemetry { battery_percent: 39, ..healthy() }.denial(), Some("battery reserve is below the owner floor"));
    assert_eq!(
        EdgeTelemetry { battery_percent: 5, on_external_power: true, ..healthy() }.denial(),
        None
    );
}

#[test]
fn edge_capabilities_are_exact_and_exclude_models_and_storage() {
    let adapters = vec![EVAL_SHARD_ADAPTER.to_string(), HASH_ADAPTER.to_string()];
    let capabilities = edge_capabilities(&adapters, "0.1.0");
    assert_eq!(capabilities.len(), 2);
    assert!(capabilities.iter().all(|capability| capability.is_valid()));
    assert!(capabilities.iter().all(|capability| {
        capability.resource_classes == vec![ResourceClass::CpuCompute]
            && capability.preemptible
            && capability.isolation == WorkloadIsolation::AllowlistedInProcess
    }));
    assert_eq!(capabilities[0].operations, vec!["score".to_string()]);
    assert_eq!(capabilities[1].operations, vec!["hash".to_string()]);
    assert_eq!(capabilities[1].runtime_digest, "shipped-edge:0.1.0");
}

#[test]
fn eligibility_fails_closed_on_every_mobile_pressure_signal() {
    let healthy = EdgeDeviceStatus {
        platform: "android".into(),
        device_kind: "phone".into(),
        foreground: true,
        donation_requested: true,
        battery_percent: 80,
        on_external_power: false,
        low_power_mode: false,
        thermal_headroom_percent: 80,
        screen_kept_awake: true,
    };
    assert!(healthy.eligible(40, 35));
    for mut denied in [
        EdgeDeviceStatus { foreground: false, ..healthy.clone() },
        EdgeDeviceStatus { donation_requested: false, ..healthy.clone() },
        EdgeDeviceStatus { battery_percent: 39, ..healthy.clone() },
        EdgeDeviceStatus { low_power_mode: true, ..healthy.clone() },
        EdgeDeviceStatus { thermal_headroom_percent: 34, ..healthy.clone() },
    ] {
        denied.on_external_power = false;
        assert!(!denied.eligible(40, 35));
    }
}

#[test]
fn only_phones_and_tablets_are_native_edge_devices() {
    for kind in [DeviceKind::Phone, DeviceKind::Tablet] {
        assert_eq!(parse_device_kind(device_kind_label(kind)), Ok(kind));
    }
    assert_eq!(device_kind_label(DeviceKind::Desktop), "unsupported");
    assert_eq!(parse_device_kind("desktop"), Err("native device class must be phone or tablet".to_string()));
    assert!(parse_device_kind("toaster").is_err());
}

#[test]
fn enrollment_codes_split_into_invite_and_secret() {
    let code = format!("0190a5a4-7d1e-7c3b-8a53-5a2b9b0c1d2e.{}", "ab".repeat(16));
    let (id, secret) = parse_enrollment_code(&code).unwrap();
    assert_eq!(id, 0x0190a5a4_7d1e_7c3b_8a53_5a2b9b0c1d2e);
    assert_eq!(secret, "ab".repeat(16));
    assert_eq!(parse_enrollment_code("no-dot-here"), Err("enrollment code has an invalid shape".to_string()));
    assert_eq!(
        parse_enrollment_code("0190a5a4-7d1e-7c3b-8a53-5a2b9b0c1d2e.short"),
        Err("enrollment secret must contain exactly 32 hexadecimal characters".to_string())
    );
    assert_eq!(
        parse_enrollment_code(&format!("not-a-uuid.{}", "ab".repeat(16))),
        Err("enrollment invite id is not a UUID".to_string())
    );
}

fn identity() -> NodeIdentityV1 {
    NodeIdentityV1 {
        schema: NodeIdentityV1::SCHEMA.into(),
        node_id: 1,
        owner_id: 2,
        display_name: "phone".into(),
        device_kind: DeviceKind::Phone,
        platform: "android".into(),
        public_key: "a".repeat(64),
        enrolled_at: NOW,
        fencing_epoch: 0,
    }
}

#[test]
fn pulses_stop_on_the_latch_and_on_identity_mismatch() {
    assert_eq!(pulse_gate(false, &healthy(), &identity()), Ok(()));
    assert_eq!(pulse_gate(true, &healthy(), &identity()), Err("local edge STOP latch is active".to_string()));
    let tablet = EdgeTelemetry { device_kind: "tablet".into(), ..healthy() };
    assert_eq!(
        pulse_gate(false, &tablet, &identity()),
        Err("native telemetry does not match the enrolled identity".to_string())
    );
    let drained = EdgeTelemetry { battery_percent: 10, ..healthy() };
    assert_eq!(pulse_gate(false, &drained, &identity()), Err("battery reserve is below the owner floor".to_string()));
}

#[test]
fn edge_offers_carry_one_cpu_resource_and_the_two_adapters() {
    let endpoint = MeshEndpointRecordV1 {
        schema: MeshEndpointRecordV1::SCHEMA.into(),
        endpoint_id: "e".repeat(64),
        direct_addresses: vec![],
        relay_urls: vec![],
        issued_at: NOW,
        expires_at: NOW + 60_000_000_000,
        signature: "signed".into(),
    };
    let offer = edge_offer(1, 2, &healthy(), 8, NOW, endpoint, "0.1.0");
    assert_eq!(offer.resources.len(), 1);
    assert_eq!(offer.resources[0].capacity, 8);
    assert_eq!(offer.resources[0].available, 7);
    assert_eq!(offer.expires_at, NOW + 20_000_000_000);
    assert_eq!(offer.adapters, vec![EVAL_SHARD_ADAPTER.to_string(), HASH_ADAPTER.to_string()]);
    assert_eq!(offer.availability.battery_percent, Some(75));
    assert!(offer.signature.is_empty());
    let single = edge_offer(1, 2, &healthy(), 1, NOW, offer.mesh_endpoint.clone().unwrap(), "0.1.0");
    assert_eq!(single.resources[0].available, 1);
}
