use engine_state::groups::{ContractMetadata, GroupError, MAX_GROUP_UREFS};

#[test]
fn create_group_seeds_existing_and_fresh_urefs() {
    let mut md = ContractMetadata::new();
    let existing = md.mint_uref();
    md.create_group("Group 1".to_string(), &vec![existing], 1)
        .expect("group should be created");
    let group = md.get_group(&"Group 1".to_string()).expect("should have group");
    assert_eq!(group.len(), 2);
    assert!(group.contains(&existing));
    assert_eq!(md.num_groups(), 1);
    assert_eq!(md.total_urefs(), 2);
}

#[test]
fn create_group_rejects_duplicate_name() {
    let mut md = ContractMetadata::new();
    md.create_group("Group 1".to_string(), &vec![], 1).expect("first creation");
    let r = md.create_group("Group 1".to_string(), &vec![], 1);
    assert_eq!(r, Err(GroupError::GroupAlreadyExists));
    assert_eq!(md.num_groups(), 1);
    assert_eq!(md.total_urefs(), 1);
}

#[test]
fn create_group_collapses_duplicate_seed_urefs() {
    let mut md = ContractMetadata::new();
    let r = md.mint_uref();
    md.create_group("Group 1".to_string(), &vec![r, r, r], 0)
        .expect("group should be created");
    let group = md.get_group(&"Group 1".to_string()).expect("should have group");
    // A group holds a set: the same reference listed thrice is one member.
    assert_eq!(group.len(), 1);
    assert_eq!(md.total_urefs(), 1);
}

#[test]
fn create_groups_is_all_or_nothing() {
    let mut md = ContractMetadata::new();
    let names = vec!["Group 1".to_string(), "Group 2".to_string(), "Group 2".to_string()];
    let r = md.create_groups(&names, &vec![], 1);
    // The third name collides with the second: nothing was created.
    assert_eq!(r, Err(GroupError::GroupAlreadyExists));
    assert_eq!(md.num_groups(), 0);
    assert_eq!(md.total_urefs(), 0);

    let names = vec!["Group 1".to_string(), "Group 2".to_string()];
    md.create_groups(&names, &vec![], 2).expect("both groups should be created");
    assert_eq!(md.num_groups(), 2);
    assert_eq!(md.total_urefs(), 4);
}

#[test]
fn extend_group_mints_into_the_named_group() {
    let mut md = ContractMetadata::new();
    let existing = md.mint_uref();
    md.create_group("Group 1".to_string(), &vec![existing], 1)
        .expect("group should be created");
    md.extend_group_urefs(&"Group 1".to_string(), 3).expect("extension under the cap");
    let group = md.get_group(&"Group 1".to_string()).expect("should have group");
    assert_eq!(group.len(), 5);
    assert_eq!(md.total_urefs(), 5);
}

#[test]
fn extend_rejects_unknown_group() {
    let mut md = ContractMetadata::new();
    let r = md.extend_group_urefs(&"nobody".to_string(), 1);
    assert_eq!(r, Err(GroupError::GroupDoesNotExist));
}

#[test]
fn limit_max_urefs_while_extending() {
    let mut md = ContractMetadata::new();
    let existing = md.mint_uref();
    md.create_group("Group 1".to_string(), &vec![existing], 1)
        .expect("group should be created");
    let k = md.total_urefs();
    assert_eq!(k, 2);

    // Extending up to the cap succeeds and lands exactly on it.
    md.extend_group_urefs(&"Group 1".to_string(), MAX_GROUP_UREFS - k)
        .expect("extension up to the cap should succeed");
    let group = md.get_group(&"Group 1".to_string()).expect("should have group");
    assert_eq!(group.len(), MAX_GROUP_UREFS);
    assert_eq!(md.total_urefs(), MAX_GROUP_UREFS);

    // One more reference exceeds the whole-contract cap; nothing changes.
    let r = md.extend_group_urefs(&"Group 1".to_string(), 1);
    assert_eq!(r, Err(GroupError::MaxTotalURefsExceeded));
    let group = md.get_group(&"Group 1".to_string()).expect("should have group");
    assert_eq!(group.len(), MAX_GROUP_UREFS);
    assert_eq!(md.total_urefs(), MAX_GROUP_UREFS);
}

#[test]
fn cap_counts_distinct_urefs_across_groups() {
    let mut md = ContractMetadata::new();
    md.create_group("Group 1".to_string(), &vec![], 6).expect("first group");
    let shared: Vec<u64> = md.get_group(&"Group 1".to_string()).expect("group").clone();
    // The second group re-uses the first group's six references: the
    // distinct total stays six, so four fresh ones still fit.
    md.create_group("Group 2".to_string(), &shared, 4).expect("second group");
    assert_eq!(md.total_urefs(), MAX_GROUP_UREFS);
    let r = md.extend_group_urefs(&"Group 2".to_string(), 1);
    assert_eq!(r, Err(GroupError::MaxTotalURefsExceeded));
}

#[test]
fn remove_urefs_from_group_ignores_absent_ones() {
    let mut md = ContractMetadata::new();
    let existing = md.mint_uref();
    md.create_group("Group 1".to_string(), &vec![existing], 1)
        .expect("group should be created");
    let group: Vec<u64> = md.get_group(&"Group 1".to_string()).expect("group").clone();
    assert_eq!(group.len(), 2);

    let absent = 9999u64;
    md.remove_group_urefs(&"Group 1".to_string(), &vec![group[0], absent])
        .expect("removal should succeed");
    let group_after = md.get_group(&"Group 1".to_string()).expect("group");
    assert_eq!(group_after.len(), 1);
    assert_eq!(group_after[0], group[1]);

    // Removing the same reference again is idempotent.
    md.remove_group_urefs(&"Group 1".to_string(), &vec![group[0]])
        .expect("removal should succeed");
    assert_eq!(md.get_group(&"Group 1".to_string()).expect("group").len(), 1);
}

#[test]
fn remove_group_deletes_only_the_named_group() {
    let mut md = ContractMetadata::new();
    md.create_group("Group 1".to_string(), &vec![], 1).expect("first group");
    md.create_group("Group 2".to_string(), &vec![], 1).expect("second group");
    md.remove_group(&"Group 1".to_string()).expect("removal should succeed");
    assert!(md.get_group(&"Group 1".to_string()).is_none());
    assert!(md.get_group(&"Group 2".to_string()).is_some());
    assert_eq!(md.num_groups(), 1);

    let r = md.remove_group(&"Group 1".to_string());
    assert_eq!(r, Err(GroupError::GroupDoesNotExist));
}

#[test]
fn removing_a_group_keeps_shared_urefs_in_other_groups() {
    let mut md = ContractMetadata::new();
    md.create_group("Group 1".to_string(), &vec![], 1).expect("first group");
    let shared = md.get_group(&"Group 1".to_string()).expect("group")[0];
    md.create_group("Group 2".to_string(), &vec![shared], 0).expect("second group");

    md.remove_group(&"Group 1".to_string()).expect("removal should succeed");

    // The shared reference is still enumerated in the surviving group.
    let group2 = md.get_group(&"Group 2".to_string()).expect("should have group");
    assert!(group2.contains(&shared));
    assert_eq!(group2.len(), 1);
}
