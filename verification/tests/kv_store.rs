use easyharun::container_id::ContainerId;
use easyharun::kv::{ContainerState, KV};

#[test]
fn unknown_targets_read_as_unhealthy() {
    let kv = KV::new();
    assert!(!kv.is_target_healthy("check-abc"));
}

#[test]
fn marking_a_target_healthy_is_readable_back() {
    let mut kv = KV::new();
    let id = ContainerId::new("abc".to_string());
    kv.mark_container_target_healthy(&id, "check-abc", true);
    assert!(kv.is_target_healthy("check-abc"));
    assert!(!kv.is_target_healthy("check-def"));

    kv.mark_container_target_healthy(&id, "check-abc", false);
    assert!(!kv.is_target_healthy("check-abc"));
}

#[test]
fn mark_target_healthy_is_idempotent_and_writes_once() {
    let mut kv = KV::new();
    let id = ContainerId::new("abc".to_string());
    assert_eq!(0, kv.health_write_count());

    kv.mark_container_target_healthy(&id, "check-abc", true);
    assert_eq!(1, kv.health_write_count());

    // The same value again is debounced: no further write.
    kv.mark_container_target_healthy(&id, "check-abc", true);
    assert_eq!(1, kv.health_write_count());

    // A changed value is one more write.
    kv.mark_container_target_healthy(&id, "check-abc", false);
    assert_eq!(2, kv.health_write_count());
    kv.mark_container_target_healthy(&id, "check-abc", false);
    assert_eq!(2, kv.health_write_count());
}

#[test]
fn deletion_marks_are_idempotent_and_never_revert() {
    let mut kv = KV::new();
    let id = ContainerId::new("abc".to_string());
    let other = ContainerId::new("def".to_string());
    assert!(!kv.is_container_marked_to_be_deleted(&id));

    kv.mark_container_to_be_deleted(&id);
    assert!(kv.is_container_marked_to_be_deleted(&id));
    assert!(!kv.is_container_marked_to_be_deleted(&other));

    kv.mark_container_to_be_deleted(&id);
    assert!(kv.is_container_marked_to_be_deleted(&id));
}

#[test]
fn container_state_defaults_to_not_deleted() {
    let state = ContainerState::new_default();
    assert!(!state.should_be_deleted);
}
