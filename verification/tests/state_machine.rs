use distributed_walrus::metadata::Metadata;
use distributed_walrus::metadata::MetadataCmd;
use distributed_walrus::auth::User;
use distributed_walrus::retention::RetentionPolicy;

fn create(name: &str, leader: u64) -> MetadataCmd {
    MetadataCmd::CreateTopic { name: name.to_string(), initial_leader: leader }
}

fn rollover(name: &str, new_leader: u64, count: u64) -> MetadataCmd {
    MetadataCmd::RolloverTopic {
        name: name.to_string(),
        new_leader,
        sealed_segment_entry_count: count,
    }
}

#[test]
fn test_create_topic_then_exists() {
    let mut m = Metadata::new();
    assert_eq!(m.apply_cmd(&create("t", 1), 100).unwrap(), "CREATED");
    let before = m.snapshot();
    assert_eq!(m.apply_cmd(&create("t", 9), 200).unwrap(), "EXISTS");
    // Idempotent: the second create left the document untouched.
    assert_eq!(m.snapshot(), before);
    let t = m.get_topic_state("t").unwrap();
    assert_eq!(t.current_segment, 1);
    assert_eq!(t.leader_node, 1);
    assert_eq!(t.last_sealed_entry_offset, 0);
}

#[test]
fn test_rollover_arithmetic() {
    let mut m = Metadata::new();
    assert_eq!(m.apply_cmd(&create("t", 1), 100).unwrap(), "CREATED");
    assert_eq!(m.apply_cmd(&rollover("t", 2, 100), 200).unwrap(), "ROLLED");
    let t = m.get_topic_state("t").unwrap();
    assert_eq!(t.current_segment, 2);
    assert_eq!(t.leader_node, 2);
    assert_eq!(t.last_sealed_entry_offset, 100);
    assert_eq!(m.sealed_count("t", 1), Some(100));
    assert_eq!(m.sealed_count("t", 2), None);
    assert_eq!(m.segment_leader("t", 1), Some(1));
    assert_eq!(m.segment_leader("t", 2), Some(2));
}

#[test]
fn test_segment_leader_prefers_frozen_record() {
    let mut m = Metadata::new();
    m.apply_cmd(&create("t", 1), 100).unwrap();
    m.apply_cmd(&rollover("t", 2, 100), 200).unwrap();
    // Even after the live leader moved on, segment 1 answers with the node
    // that wrote it; a segment with no record falls back to the live leader.
    assert_eq!(m.segment_leader("t", 1), Some(1));
    assert_eq!(m.segment_leader("t", 2), Some(2));
    assert_eq!(m.segment_leader("t", 77), Some(2));
    assert_eq!(m.segment_leader("missing", 1), None);
}

#[test]
fn test_rollover_unknown_topic_fails() {
    let mut m = Metadata::new();
    let err = m.apply_cmd(&rollover("nope", 2, 5), 100).unwrap_err();
    assert_eq!(err, "Topic not found");
}

#[test]
fn test_delete_segments_leaves_leadership_alone() {
    let mut m = Metadata::new();
    m.apply_cmd(&create("t", 1), 100).unwrap();
    m.apply_cmd(&rollover("t", 2, 10), 200).unwrap();
    m.apply_cmd(&rollover("t", 3, 20), 300).unwrap();
    let cmd = MetadataCmd::DeleteSegments { topic: "t".to_string(), segment_ids: vec![1] };
    assert_eq!(m.apply_cmd(&cmd, 400).unwrap(), "SEGMENTS_DELETED");
    let t = m.get_topic_state("t").unwrap();
    assert_eq!(t.current_segment, 3);
    assert_eq!(t.leader_node, 3);
    assert_eq!(t.last_sealed_entry_offset, 30);
    assert_eq!(m.sealed_count("t", 1), None);
    assert_eq!(m.sealed_count("t", 2), Some(20));
    // The deleted id is gone from the per-segment leader table too, so it
    // now falls back to the live leader.
    assert_eq!(m.segment_leader("t", 1), Some(3));
    assert_eq!(m.segment_leader("t", 2), Some(2));
}

#[test]
fn test_delete_segments_unknown_topic_fails() {
    let mut m = Metadata::new();
    let cmd = MetadataCmd::DeleteSegments { topic: "t".to_string(), segment_ids: vec![1] };
    assert_eq!(m.apply_cmd(&cmd, 100).unwrap_err(), "Topic not found");
}

#[test]
fn test_set_retention_replaces_policy() {
    let mut m = Metadata::new();
    m.apply_cmd(&create("t", 1), 100).unwrap();
    let cmd = MetadataCmd::SetRetention {
        topic: "t".to_string(),
        policy: RetentionPolicy::hybrid(24, 5),
    };
    assert_eq!(m.apply_cmd(&cmd, 200).unwrap(), "RETENTION_SET");
    let t = m.get_topic_state("t").unwrap();
    assert_eq!(t.retention, RetentionPolicy::hybrid(24, 5));
    let cmd2 = MetadataCmd::SetRetention {
        topic: "missing".to_string(),
        policy: RetentionPolicy::time_based(1),
    };
    assert_eq!(m.apply_cmd(&cmd2, 300).unwrap_err(), "Topic not found");
}

#[test]
fn test_upsert_node_directory() {
    let mut m = Metadata::new();
    assert_eq!(m.get_node_addr(1), None);
    let cmd = MetadataCmd::UpsertNode { node_id: 1, addr: "10.0.0.1:7000".to_string() };
    assert_eq!(m.apply_cmd(&cmd, 100).unwrap(), "NODE");
    assert_eq!(m.get_node_addr(1), Some("10.0.0.1:7000".to_string()));
    let cmd2 = MetadataCmd::UpsertNode { node_id: 1, addr: "10.0.0.2:7000".to_string() };
    assert_eq!(m.apply_cmd(&cmd2, 200).unwrap(), "NODE");
    assert_eq!(m.get_node_addr(1), Some("10.0.0.2:7000".to_string()));
    assert_eq!(m.all_node_addrs(), vec![(1, "10.0.0.2:7000".to_string())]);
}

#[test]
fn test_owned_topics_filters_by_leader() {
    let mut m = Metadata::new();
    m.apply_cmd(&create("a", 1), 100).unwrap();
    m.apply_cmd(&create("b", 2), 100).unwrap();
    m.apply_cmd(&create("c", 1), 100).unwrap();
    m.apply_cmd(&rollover("c", 1, 5), 200).unwrap();
    let owned = m.owned_topics(1);
    assert_eq!(owned, vec![("a".to_string(), 1), ("c".to_string(), 2)]);
    assert_eq!(m.owned_topics(2), vec![("b".to_string(), 1)]);
    assert_eq!(m.owned_topics(3), vec![]);
}

#[test]
fn test_user_directory_lifecycle() {
    let mut m = Metadata::new();
    assert!(!m.has_users());
    assert!(!m.user_exists("alice"));
    let alice = User {
        username: "alice".to_string(),
        password: "wonder".to_string(),
        api_key: Some("key-1".to_string()),
    };
    let cmd = MetadataCmd::AddUser { user: alice };
    assert_eq!(m.apply_cmd(&cmd, 100).unwrap(), "USER_ADDED");
    assert!(m.has_users());
    assert!(m.user_exists("alice"));

    let dup = User {
        username: "alice".to_string(),
        password: "other".to_string(),
        api_key: None,
    };
    let cmd2 = MetadataCmd::AddUser { user: dup };
    assert_eq!(m.apply_cmd(&cmd2, 200).unwrap_err(), "User already exists");

    assert!(m.authenticate("alice", "wonder").is_some());
    assert!(m.authenticate("alice", "wrong").is_none());
    assert!(m.authenticate("bob", "wonder").is_none());
    assert!(m.authenticate_with_api_key("key-1").is_some());
    assert!(m.authenticate_with_api_key("key-2").is_none());

    let cmd3 = MetadataCmd::RemoveUser { username: "alice".to_string() };
    assert_eq!(m.apply_cmd(&cmd3, 300).unwrap(), "USER_REMOVED");
    assert!(!m.user_exists("alice"));
    assert!(!m.has_users());
    let cmd4 = MetadataCmd::RemoveUser { username: "alice".to_string() };
    assert_eq!(m.apply_cmd(&cmd4, 400).unwrap_err(), "User not found");
}

#[test]
fn test_rollover_overflow_is_rejected() {
    let mut m = Metadata::new();
    m.apply_cmd(&create("t", 1), 100).unwrap();
    m.apply_cmd(&rollover("t", 1, u64::MAX), 200).unwrap();
    // A second max-size seal would overflow the cumulative offset; the
    // command is rejected and the state stands.
    let err = m.apply_cmd(&rollover("t", 1, 1), 300).unwrap_err();
    assert_eq!(err, "counter overflow");
    let t = m.get_topic_state("t").unwrap();
    assert_eq!(t.current_segment, 2);
    assert_eq!(t.last_sealed_entry_offset, u64::MAX);
}
