use engine_state::global_state::{CommitError, GlobalState};
use engine_state::groups::ContractMetadata;
use engine_state::transform::{merge, MergeError, StoredValue, Transform};
use engine_state::u512::U512;

#[test]
fn u512_addition_carries_across_limbs() {
    let max64 = U512::from_u64(u64::MAX);
    let one = U512::from_u64(1);
    let sum = max64.checked_add(&one).expect("should fit in 512 bits");
    // 2^64 = limb 1 set to one.
    assert_eq!(sum, U512::from_limbs(&[0, 1, 0, 0, 0, 0, 0, 0]));
}

#[test]
fn u512_addition_detects_overflow() {
    let max = U512::from_limbs(&[u64::MAX; 8]);
    let one = U512::from_u64(1);
    assert!(max.checked_add(&one).is_none());
    assert!(one.checked_add(&max).is_none());
    assert!(max.checked_add(&U512::zero()).is_some());
}

#[test]
fn merge_folds_delta_into_numeric_write() {
    let write_ten = Transform::Write(StoredValue::UInt512(U512::from_u64(10)));
    let add_five = Transform::AddUInt512(U512::from_u64(5));
    let merged = merge(write_ten, add_five).expect("should merge");
    assert_eq!(merged, Transform::Write(StoredValue::UInt512(U512::from_u64(15))));
}

#[test]
fn merge_sums_two_accumulations() {
    let add_three = Transform::AddUInt512(U512::from_u64(3));
    let add_four = Transform::AddUInt512(U512::from_u64(4));
    let merged = merge(add_three, add_four).expect("should merge");
    assert_eq!(merged, Transform::AddUInt512(U512::from_u64(7)));
}

#[test]
fn merge_identity_is_unit_on_both_sides() {
    let value = StoredValue::Bytes(vec![1, 2, 3]);
    let write = Transform::Write(value.clone());
    assert_eq!(merge(Transform::Identity, write.clone()), Ok(Transform::Write(value.clone())));
    assert_eq!(merge(write, Transform::Identity), Ok(Transform::Write(value)));
    assert_eq!(merge(Transform::Identity, Transform::Identity), Ok(Transform::Identity));
}

#[test]
fn merge_write_replaces_anything_before_it() {
    let first = Transform::Write(StoredValue::UInt512(U512::from_u64(1)));
    let second = Transform::Write(StoredValue::Bytes(vec![9]));
    assert_eq!(merge(first, second.clone()), Ok(second.clone()));
    let add = Transform::AddUInt512(U512::from_u64(2));
    assert_eq!(merge(add, second.clone()), Ok(second));
}

#[test]
fn merge_rejects_delta_into_non_numeric_write() {
    let write_bytes = Transform::Write(StoredValue::Bytes(vec![1]));
    let add = Transform::AddUInt512(U512::from_u64(5));
    assert_eq!(merge(write_bytes, add), Err(MergeError::TypeMismatch));
}

#[test]
fn merge_rejects_numeric_overflow() {
    let huge = Transform::AddUInt512(U512::from_limbs(&[u64::MAX; 8]));
    let one = Transform::AddUInt512(U512::from_u64(1));
    assert_eq!(merge(huge, one), Err(MergeError::Overflow));
}

#[test]
fn commit_applies_log_in_order() {
    let mut state = GlobalState::new();
    let log = vec![
        (1u64, Transform::Write(StoredValue::UInt512(U512::from_u64(10)))),
        (1u64, Transform::AddUInt512(U512::from_u64(5))),
        (2u64, Transform::Write(StoredValue::Bytes(vec![7, 8]))),
        (2u64, Transform::Identity),
    ];
    state.commit(100, &log).expect("commit should succeed");
    assert_eq!(state.query(1), Some(&StoredValue::UInt512(U512::from_u64(15))));
    assert_eq!(state.query(2), Some(&StoredValue::Bytes(vec![7, 8])));
    assert_eq!(state.query(3), None);
    assert!(state.is_committed(100));
}

#[test]
fn recommitting_a_committed_log_changes_nothing() {
    let mut state = GlobalState::new();
    let log = vec![
        (1u64, Transform::Write(StoredValue::UInt512(U512::from_u64(10)))),
        (1u64, Transform::AddUInt512(U512::from_u64(5))),
    ];
    state.commit(100, &log).expect("first commit should succeed");
    assert_eq!(state.query(1), Some(&StoredValue::UInt512(U512::from_u64(15))));

    // The same log under the same deploy identifier: a no-op, not +5 again.
    state.commit(100, &log).expect("recommit should report success");
    assert_eq!(state.query(1), Some(&StoredValue::UInt512(U512::from_u64(15))));

    // A different deploy identifier is a genuinely new commit.
    state.commit(101, &log).expect("new deploy should commit");
    assert_eq!(state.query(1), Some(&StoredValue::UInt512(U512::from_u64(15))));
}

#[test]
fn failed_commit_leaves_state_untouched() {
    let mut state = GlobalState::new();
    state
        .commit(1, &vec![(5u64, Transform::Write(StoredValue::UInt512(U512::from_u64(3))))])
        .expect("setup commit should succeed");

    // Accumulating into an absent key.
    let log = vec![
        (5u64, Transform::AddUInt512(U512::from_u64(1))),
        (6u64, Transform::AddUInt512(U512::from_u64(1))),
    ];
    assert_eq!(state.commit(2, &log), Err(CommitError::NotFound));
    // The first entry's effect was discarded with the rest.
    assert_eq!(state.query(5), Some(&StoredValue::UInt512(U512::from_u64(3))));
    assert!(!state.is_committed(2));

    // Accumulating into a non-numeric value.
    let log = vec![
        (7u64, Transform::Write(StoredValue::Bytes(vec![1]))),
        (7u64, Transform::AddUInt512(U512::from_u64(1))),
    ];
    assert_eq!(state.commit(3, &log), Err(CommitError::TypeMismatch));
    assert_eq!(state.query(7), None);

    // Accumulating past the numeric width.
    let log = vec![
        (8u64, Transform::Write(StoredValue::UInt512(U512::from_limbs(&[u64::MAX; 8])))),
        (8u64, Transform::AddUInt512(U512::from_u64(1))),
    ];
    assert_eq!(state.commit(4, &log), Err(CommitError::Overflow));
    assert_eq!(state.query(8), None);
}

#[test]
fn query_returns_contract_metadata_with_its_groups() {
    let mut metadata = ContractMetadata::new();
    metadata
        .create_group("Group 1".to_string(), &vec![], 2)
        .expect("group should be created");

    let mut state = GlobalState::new();
    let contract_key = 7u64;
    let log = vec![(contract_key, Transform::Write(StoredValue::Contract(metadata)))];
    state.commit(1, &log).expect("commit should succeed");

    match state.query(contract_key) {
        Some(StoredValue::Contract(found)) => {
            let group = found.get_group(&"Group 1".to_string()).expect("should have group");
            assert_eq!(group.len(), 2);
        }
        other => panic!("expected contract metadata, found {other:?}"),
    }

    // Accumulating into a contract's key is a type mismatch.
    let bad = vec![(contract_key, Transform::AddUInt512(U512::from_u64(1)))];
    assert_eq!(state.commit(2, &bad), Err(CommitError::TypeMismatch));
}

#[test]
fn identity_reads_are_tracked_without_effect() {
    let mut state = GlobalState::new();
    let log = vec![(9u64, Transform::Identity)];
    state.commit(1, &log).expect("identity-only log should commit");
    assert_eq!(state.query(9), None);
}
