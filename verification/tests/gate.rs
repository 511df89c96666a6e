use engine_state::deploy::{gate_stored_call, DeployError, DeployTarget, ExecutionResult};
use engine_state::protocol_data::ProtocolData;
use engine_state::registry::{ProtocolRegistry, RegistryError, UpgradeRequest};
use engine_state::semver::{check_compatibility, GateError, ProtocolVersion};
use engine_state::transform::{StoredValue, Transform};
use engine_state::u512::U512;
use engine_state::wasm_costs::WasmCosts;

#[test]
fn minor_and_patch_differences_are_compatible() {
    let stored_version = ProtocolVersion::new(1, 0, 0);
    let requested = ProtocolVersion::new(1, 5, 2);
    assert!(stored_version.is_compatible_with(&requested));
    assert_eq!(check_compatibility(&requested, &stored_version), Ok(()));
}

#[test]
fn major_version_mismatch_is_rejected() {
    let stored_version = ProtocolVersion::new(1, 0, 0);
    let requested = ProtocolVersion::new(2, 0, 0);
    assert!(!stored_version.is_compatible_with(&requested));
    assert_eq!(
        check_compatibility(&requested, &stored_version),
        Err(GateError::IncompatibleProtocolMajorVersion { expected: 2, actual: 1 })
    );
}

#[test]
fn gate_decision_ignores_addressing_mode() {
    let hash = [11u8; 32];
    let store = vec![(hash, ProtocolVersion::new(1, 0, 0))];
    let named_keys = vec![("do_nothing".to_string(), hash)];
    let uref_keys = vec![(77u64, hash)];

    let ok_version = ProtocolVersion::new(1, 5, 2);
    let bad_version = ProtocolVersion::new(2, 0, 0);

    for target in [
        DeployTarget::ByHash(hash),
        DeployTarget::ByName("do_nothing".to_string()),
        DeployTarget::ByUref(77),
    ] {
        let admitted = gate_stored_call(&store, &named_keys, &uref_keys, &target, &ok_version);
        assert_eq!(admitted, Ok(hash));
        let rejected = gate_stored_call(&store, &named_keys, &uref_keys, &target, &bad_version);
        assert_eq!(
            rejected,
            Err(DeployError::IncompatibleProtocolMajorVersion { expected: 2, actual: 1 })
        );
    }
}

#[test]
fn gate_rejects_unresolvable_targets() {
    let hash = [11u8; 32];
    let store = vec![(hash, ProtocolVersion::new(1, 0, 0))];
    let named_keys: Vec<(String, [u8; 32])> = vec![];
    let uref_keys: Vec<(u64, [u8; 32])> = vec![];
    let version = ProtocolVersion::new(1, 0, 0);

    let missing_name = DeployTarget::ByName("missing".to_string());
    assert_eq!(
        gate_stored_call(&store, &named_keys, &uref_keys, &missing_name, &version),
        Err(DeployError::NotFound)
    );

    // A resolvable hash that is not in the store is just as unknown.
    let unstored = DeployTarget::ByHash([99u8; 32]);
    assert_eq!(
        gate_stored_call(&store, &named_keys, &uref_keys, &unstored, &version),
        Err(DeployError::NotFound)
    );
}

#[test]
fn execution_result_reports_outcome_and_cost() {
    let success = ExecutionResult::Success {
        transforms: vec![(1u64, Transform::Write(StoredValue::UInt512(U512::from_u64(10))))],
        cost: 250,
    };
    assert!(success.is_success());
    assert_eq!(success.cost(), 250);

    let failure = ExecutionResult::Failure {
        error: DeployError::IncompatibleProtocolMajorVersion { expected: 2, actual: 1 },
        cost: 17,
    };
    assert!(!failure.is_success());
    assert_eq!(failure.cost(), 17);
}

#[test]
fn registry_returns_not_found_for_unactivated_versions() {
    let mut registry = ProtocolRegistry::new();
    let v1 = ProtocolVersion::new(1, 0, 0);
    assert_eq!(registry.get(&v1), Err(RegistryError::NotFound));

    let record = ProtocolData::new(WasmCosts::default(), [1u8; 32], [2u8; 32], [3u8; 32]);
    registry.activate(v1, record, 0).expect("activation should succeed");
    assert_eq!(registry.get(&v1), Ok(&record));

    // A version is activated at most once.
    assert_eq!(registry.activate(v1, record, 5), Err(RegistryError::AlreadyActivated));
}

#[test]
fn upgrade_activation_is_additive_and_fails_closed() {
    let mut registry = ProtocolRegistry::new();
    let v1 = ProtocolVersion::new(1, 0, 0);
    let v2 = ProtocolVersion::new(2, 0, 0);
    let old_mint = [1u8; 32];
    let new_mint = [9u8; 32];
    let record = ProtocolData::new(WasmCosts::default(), old_mint, [2u8; 32], [3u8; 32]);
    registry.activate(v1, record, 0).expect("genesis activation");

    // A remap naming an unknown address marks a broken installer: the
    // activation fails closed and the prior version stays authoritative.
    let bad_request = UpgradeRequest {
        new_protocol_version: v2,
        activation_point: 1,
        remaps: vec![([42u8; 32], new_mint)],
    };
    let bad = registry.activate_upgrade(&v1, &bad_request);
    assert_eq!(bad, Err(RegistryError::InvalidUpgrade));
    assert_eq!(registry.get(&v2), Err(RegistryError::NotFound));
    assert_eq!(registry.get(&v1), Ok(&record));

    // A valid remap files the upgraded record under the new version and
    // leaves the prior record untouched.
    let request = UpgradeRequest {
        new_protocol_version: v2,
        activation_point: 1,
        remaps: vec![(old_mint, new_mint)],
    };
    registry
        .activate_upgrade(&v1, &request)
        .expect("upgrade should activate");
    assert_eq!(registry.get(&v1), Ok(&record));
    let upgraded = registry.get(&v2).expect("new version should be filed");
    assert_eq!(upgraded.mint(), new_mint);
    assert_eq!(upgraded.proof_of_stake(), [2u8; 32]);
    assert_eq!(upgraded.standard_payment(), [3u8; 32]);
    assert_eq!(registry.activation_point(&v2), Ok(1));
    assert_eq!(registry.activation_point(&v1), Ok(0));

    // Upgrading from a version that was never activated is rejected.
    let v3 = ProtocolVersion::new(3, 0, 0);
    let from_unknown = UpgradeRequest {
        new_protocol_version: ProtocolVersion::new(4, 0, 0),
        activation_point: 2,
        remaps: vec![],
    };
    assert_eq!(registry.activate_upgrade(&v3, &from_unknown), Err(RegistryError::NotFound));
}
