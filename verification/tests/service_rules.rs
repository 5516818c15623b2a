use rampage::gateway::{
    anthropic_content_text, translate_anthropic_request, validate_openai_request, AnthropicContent, AnthropicMessage,
    AnthropicMessagesRequest, AnthropicTextBlock, OpenAiChatCompletionRequest, OpenAiChatMessage,
};
use rampage::protocol::{
    ArtifactRefV1, ArtifactTransferOperation, AvailabilityV1, DeviceKind, ExecutionPattern, InstalledModelV1,
    ModelBackend, ModelMemoryKind, ModelParallelism, ModelRuntimeOfferV1, ModelRuntimeStatus, NodeIdentityV1,
    ResourceClass, ResourceOfferV1, ResourceQuantityV1, StorageClass, WorkloadCapabilityStatus, WorkloadCapabilityV1,
    WorkloadDomain, WorkloadIsolation,
};
use rampage::service::{
    anthropic_failure_kind, anthropic_stop_reason, append_bounded_bytes, artifact_transfer_session_id,
    bounded_gateway_error, retrieval_sink_contract, select_replica_probes, validate_model_runtime_contracts,
    validate_offer_identity_binding,
};
use std::collections::BTreeSet;

const NOW: i128 = 1_700_000_000_000_000_000;
const MINUTE: i128 = 60_000_000_000;
const GIB: u64 = 1024 * 1024 * 1024;

fn valid_model_offer() -> ResourceOfferV1 {
    let model = InstalledModelV1 {
        schema: InstalledModelV1::SCHEMA.into(),
        model_id: "gemma3:4b".into(),
        artifact_digest: format!("sha256:{}", "d".repeat(64)),
        artifact_size_bytes: GIB,
    };
    ResourceOfferV1 {
        schema: "rampage.resource-offer.v1".into(),
        offer_id: 1,
        node_id: 2,
        observed_at: NOW,
        expires_at: NOW + MINUTE,
        resources: vec![ResourceQuantityV1 {
            class: ResourceClass::RamWorkingSet,
            capacity: 4 * GIB,
            available: 4 * GIB,
            unit: "byte".into(),
            labels: vec![],
        }],
        availability: AvailabilityV1 {
            on_ac_power: true,
            battery_percent: None,
            thermal_headroom_percent: 80,
            foreground_allowed: true,
            owner_idle: true,
        },
        adapters: vec!["rampage.ollama.v1".into()],
        workload_capabilities: Vec::new(),
        model_runtimes: vec![ModelRuntimeOfferV1 {
            schema: ModelRuntimeOfferV1::SCHEMA.into(),
            adapter: "rampage.ollama.v1".into(),
            backend: ModelBackend::LocalOllama,
            runtime_version: "test".into(),
            runtime_digest: "shipped-local:test".into(),
            compatibility_key: "ollama-test".into(),
            memory_kind: ModelMemoryKind::Host,
            available_model_bytes: 4 * GIB,
            supported_parallelism: vec![ModelParallelism::WholeModel],
            status: ModelRuntimeStatus::ShippedLocal,
            installed_models: vec![model],
            certification_digest: None,
        }],
        link_benchmark: None,
        mesh_endpoint: None,
        signature: "signed".into(),
    }
}

#[test]
fn chunked_mesh_proxy_response_is_bounded_during_accumulation() {
    let mut bytes = Vec::new();
    append_bounded_bytes(&mut bytes, &[1, 2], 3).unwrap();
    assert!(append_bounded_bytes(&mut bytes, &[3, 4], 3).is_err());
    assert_eq!(bytes, vec![1, 2]);
}

#[test]
fn model_offer_cannot_exceed_signed_memory_resources() {
    let mut offer = valid_model_offer();
    assert_eq!(validate_model_runtime_contracts(&offer), Ok(()));
    offer.model_runtimes[0].available_model_bytes += 1;
    assert!(validate_model_runtime_contracts(&offer).is_err());
}

#[test]
fn edge_offer_is_bound_to_enrolled_device_class_and_battery_telemetry() {
    let mut offer = valid_model_offer();
    offer.resources[0].labels = vec![("device_kind".into(), "phone".into())];
    offer.availability.battery_percent = Some(75);
    let identity = NodeIdentityV1 {
        schema: NodeIdentityV1::SCHEMA.into(),
        node_id: offer.node_id,
        owner_id: 3,
        display_name: "native phone".into(),
        device_kind: DeviceKind::Phone,
        platform: "android".into(),
        public_key: "a".repeat(64),
        enrolled_at: NOW,
        fencing_epoch: 0,
    };
    assert_eq!(validate_offer_identity_binding(&identity, &offer), Ok(()));

    offer.resources[0].labels = vec![("device_kind".into(), "desktop".into())];
    assert!(validate_offer_identity_binding(&identity, &offer).is_err());

    offer.resources[0].labels = vec![("device_kind".into(), "phone".into())];
    offer.availability.battery_percent = None;
    assert!(validate_offer_identity_binding(&identity, &offer).is_err());
}

#[test]
fn unqualified_runtime_cannot_advertise_executable_models() {
    let mut offer = valid_model_offer();
    offer.model_runtimes[0].status = ModelRuntimeStatus::Candidate;
    assert!(validate_model_runtime_contracts(&offer).is_err());
}

#[test]
fn workload_capability_must_be_valid_unique_and_adapter_bound() {
    let mut offer = valid_model_offer();
    offer.workload_capabilities = vec![WorkloadCapabilityV1 {
        schema: WorkloadCapabilityV1::SCHEMA.into(),
        adapter: "unadvertised.adapter".into(),
        domain: WorkloadDomain::Gaming,
        operations: vec!["stream_session".into()],
        execution_patterns: vec![ExecutionPattern::StreamingService],
        resource_classes: vec![ResourceClass::GpuCompute],
        isolation: WorkloadIsolation::VendorWorker,
        runtime_digest: "candidate:gaming".into(),
        checkpointable: false,
        preemptible: true,
        network_allowlist_required: true,
        status: WorkloadCapabilityStatus::Candidate,
        qualification_digest: None,
    }];
    assert!(validate_model_runtime_contracts(&offer).is_err());
    offer.workload_capabilities[0].adapter = "rampage.ollama.v1".into();
    assert_eq!(validate_model_runtime_contracts(&offer), Ok(()));
    let duplicate = offer.workload_capabilities[0].clone();
    offer.workload_capabilities.push(duplicate);
    assert!(validate_model_runtime_contracts(&offer).is_err());
}

#[test]
fn runtime_contract_refusals_name_their_reason() {
    let mut offer = valid_model_offer();
    offer.model_runtimes.push(offer.model_runtimes[0].clone());
    assert_eq!(
        validate_model_runtime_contracts(&offer),
        Err("offer contains a malformed or contradictory model-runtime profile".to_string())
    );
    let mut offer = valid_model_offer();
    let model = offer.model_runtimes[0].installed_models[0].clone();
    offer.model_runtimes[0].installed_models.push(model);
    assert_eq!(
        validate_model_runtime_contracts(&offer),
        Err("offer contains a malformed or duplicate installed model".to_string())
    );
    let mut offer = valid_model_offer();
    offer.model_runtimes[0].runtime_digest = "other:test".into();
    assert_eq!(
        validate_model_runtime_contracts(&offer),
        Err("model runtime status, backend, topology, or installed-model authority is inconsistent".to_string())
    );
}

fn openai_request() -> OpenAiChatCompletionRequest {
    OpenAiChatCompletionRequest {
        model: "gemma3:4b".into(),
        messages: vec![OpenAiChatMessage { role: "user".into(), content: "hello".into() }],
        stream: false,
        max_tokens: Some(128),
        max_completion_tokens: Some(128),
        temperature: Some(0.5f32.to_bits()),
        top_p: Some(0.9f32.to_bits()),
    }
}

#[test]
fn openai_subset_bounds_generation_controls() {
    assert_eq!(validate_openai_request(&openai_request()).unwrap(), 128);
}

#[test]
fn openai_requests_are_refused_outside_the_gateway_limits() {
    let mut request = openai_request();
    request.max_tokens = Some(64);
    let failure = validate_openai_request(&request).unwrap_err();
    assert_eq!(failure.status, 400);
    assert_eq!(failure.message, "max_tokens and max_completion_tokens conflict");
    let mut request = openai_request();
    request.temperature = Some(2.5f32.to_bits());
    assert_eq!(validate_openai_request(&request).unwrap_err().message, "temperature or top_p is outside the supported range");
    let mut request = openai_request();
    request.temperature = Some(f32::NAN.to_bits());
    assert!(validate_openai_request(&request).is_err());
    let mut request = openai_request();
    request.temperature = Some((-0.0f32).to_bits());
    request.top_p = Some(1.0f32.to_bits());
    assert_eq!(validate_openai_request(&request).unwrap(), 128);
    let mut request = openai_request();
    request.max_tokens = None;
    request.max_completion_tokens = None;
    assert_eq!(validate_openai_request(&request).unwrap(), 512);
    let mut request = openai_request();
    request.messages[0].role = "tool".into();
    assert!(validate_openai_request(&request).is_err());
    let mut request = openai_request();
    request.messages[0].content = "x".repeat(1024 * 1024);
    let failure = validate_openai_request(&request).unwrap_err();
    assert_eq!((failure.status, failure.code), (413, "prompt_too_large"));
}

fn text_block(text: &str) -> AnthropicTextBlock {
    AnthropicTextBlock { block_type: "text".into(), text: text.into() }
}

#[test]
fn anthropic_text_messages_translate_without_broadening_authority() {
    let request = AnthropicMessagesRequest {
        model: "gemma3:4b".into(),
        max_tokens: 64,
        messages: vec![AnthropicMessage {
            role: "user".into(),
            content: AnthropicContent::Blocks(vec![text_block("hello")]),
        }],
        system: Some(AnthropicContent::Blocks(vec![text_block("Be concise.")])),
        stream: true,
        temperature: None,
        top_p: None,
    };
    let translated = translate_anthropic_request(request).unwrap();
    assert_eq!(translated.messages.len(), 2);
    assert_eq!(translated.messages[0].role, "system");
    assert_eq!(translated.messages[1].content, "hello");
    assert_eq!(translated.max_completion_tokens, Some(64));
    assert!(translated.stream);
}

#[test]
fn anthropic_content_is_text_only_and_non_empty() {
    assert_eq!(
        anthropic_content_text(&AnthropicContent::Blocks(vec![text_block("a"), text_block("b")])).unwrap(),
        "ab"
    );
    assert!(anthropic_content_text(&AnthropicContent::Text(String::new())).is_err());
    assert!(anthropic_content_text(&AnthropicContent::Blocks(vec![])).is_err());
    let image = AnthropicTextBlock { block_type: "image".into(), text: "x".into() };
    assert!(anthropic_content_text(&AnthropicContent::Blocks(vec![image])).is_err());
    let request = AnthropicMessagesRequest {
        model: "gemma3:4b".into(),
        max_tokens: 0,
        messages: vec![],
        system: None,
        stream: false,
        temperature: None,
        top_p: None,
    };
    assert!(translate_anthropic_request(request).is_err());
}

#[test]
fn anthropic_stop_reasons_are_explicitly_mapped() {
    assert_eq!(anthropic_stop_reason("stop"), "end_turn");
    assert_eq!(anthropic_stop_reason("length"), "max_tokens");
}

#[test]
fn gateway_failures_map_to_anthropic_error_kinds() {
    assert_eq!(anthropic_failure_kind(400), "invalid_request_error");
    assert_eq!(anthropic_failure_kind(413), "invalid_request_error");
    assert_eq!(anthropic_failure_kind(401), "authentication_error");
    assert_eq!(anthropic_failure_kind(429), "rate_limit_error");
    assert_eq!(anthropic_failure_kind(500), "api_error");
    assert_eq!(bounded_gateway_error(&"e".repeat(600)).len(), 512);
    assert_eq!(bounded_gateway_error("short"), "short");
}

#[test]
fn transfer_sessions_are_deterministic_but_peer_and_direction_specific() {
    let digest = format!("sha256:{}", "e".repeat(64));
    let first = 11u128;
    let second = 12u128;
    let put = artifact_transfer_session_id(first, &digest, ArtifactTransferOperation::Put);
    assert_eq!(put, artifact_transfer_session_id(first, &digest, ArtifactTransferOperation::Put));
    assert_ne!(put, artifact_transfer_session_id(first, &digest, ArtifactTransferOperation::Get));
    assert_ne!(put, artifact_transfer_session_id(second, &digest, ArtifactTransferOperation::Put));
}

#[test]
fn protected_remote_retrieval_preserves_the_local_content_address_contract() {
    let digest = format!("sha256:{}", "f".repeat(64));
    let remote = ArtifactRefV1 {
        schema: "rampage.artifact-ref.v1".into(),
        digest: digest.clone(),
        size_bytes: 42,
        media_type: "application/octet-stream".into(),
        storage_class: StorageClass::Protected,
        encrypted: true,
    };
    let local = ArtifactRefV1 { storage_class: StorageClass::Cache, ..remote.clone() };
    assert_eq!(retrieval_sink_contract(&remote, Some(&local)).unwrap(), (StorageClass::Cache, 1));
    assert_eq!(retrieval_sink_contract(&remote, None).unwrap(), (StorageClass::Protected, 2));

    let conflicting = ArtifactRefV1 { size_bytes: 43, ..local };
    assert!(retrieval_sink_contract(&remote, Some(&conflicting)).is_err());
}

#[test]
fn replica_probe_selection_is_rotating_and_resource_bounded() {
    let artifact = |suffix: char, size_bytes| ArtifactRefV1 {
        schema: "rampage.artifact-ref.v1".into(),
        digest: format!("sha256:{}", suffix.to_string().repeat(64)),
        size_bytes,
        media_type: "application/octet-stream".into(),
        storage_class: StorageClass::Protected,
        encrypted: true,
    };
    let candidates = (0..6u8)
        .map(|index| {
            let artifact = artifact((b'a' + index) as char, 40 * 1024 * 1024);
            (artifact.digest.clone(), 100 + index as u128, artifact)
        })
        .collect::<Vec<_>>();
    let first = select_replica_probes(&candidates, 0).into_iter().collect::<BTreeSet<_>>();
    let rotated = select_replica_probes(&candidates, 4).into_iter().collect::<BTreeSet<_>>();
    assert_eq!(first.len(), 3);
    assert_eq!(rotated.len(), 3);
    assert_ne!(first, rotated);
}

#[test]
fn replica_probes_take_at_most_four_and_always_the_first() {
    let artifact = |size_bytes| ArtifactRefV1 {
        schema: "rampage.artifact-ref.v1".into(),
        digest: format!("sha256:{}", "a".repeat(64)),
        size_bytes,
        media_type: "application/octet-stream".into(),
        storage_class: StorageClass::Protected,
        encrypted: true,
    };
    let small = (0..6u128).map(|i| (format!("d{i}"), i, artifact(1))).collect::<Vec<_>>();
    assert_eq!(select_replica_probes(&small, 5).len(), 4);
    let huge = vec![("big".to_string(), 1u128, artifact(1 << 40)), ("next".to_string(), 2u128, artifact(1))];
    let picked = select_replica_probes(&huge, 0);
    assert_eq!(picked, vec![("big".to_string(), 1u128)]);
    assert!(select_replica_probes(&vec![], 3).is_empty());
}

#[test]
fn transfer_session_ids_are_version_five_uuids() {
    let digest = format!("sha256:{}", "e".repeat(64));
    for node in [0u128, 11, u128::MAX] {
        for operation in [ArtifactTransferOperation::Put, ArtifactTransferOperation::Get] {
            let id = artifact_transfer_session_id(node, &digest, operation);
            assert_eq!((id >> 76) & 0xf, 5);
            assert_eq!((id >> 62) & 0x3, 2);
        }
    }
}
