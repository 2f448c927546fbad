use distributed_walrus::auth::User;
use distributed_walrus::codec::encode_cmd;
use distributed_walrus::metadata::Metadata;
use distributed_walrus::metadata::MetadataCmd;
use distributed_walrus::retention::RetentionPolicy;

fn build_sample() -> Metadata {
    let mut m = Metadata::new();
    m.apply_cmd(&MetadataCmd::CreateTopic { name: "orders".to_string(), initial_leader: 1 }, 100)
        .unwrap();
    m.apply_cmd(
        &MetadataCmd::RolloverTopic {
            name: "orders".to_string(),
            new_leader: 2,
            sealed_segment_entry_count: 42,
        },
        200,
    )
    .unwrap();
    m.apply_cmd(&MetadataCmd::CreateTopic { name: "logs".to_string(), initial_leader: 3 }, 300)
        .unwrap();
    m.apply_cmd(
        &MetadataCmd::SetRetention {
            topic: "logs".to_string(),
            policy: RetentionPolicy::hybrid(24, 5),
        },
        400,
    )
    .unwrap();
    m.apply_cmd(
        &MetadataCmd::UpsertNode { node_id: 1, addr: "127.0.0.1:7001".to_string() },
        500,
    )
    .unwrap();
    m.apply_cmd(
        &MetadataCmd::AddUser {
            user: User {
                username: "admin".to_string(),
                password: "s3cret".to_string(),
                api_key: Some("abc".to_string()),
            },
        },
        600,
    )
    .unwrap();
    m
}

#[test]
fn test_snapshot_restore_round_trip() {
    let m = build_sample();
    let snap = m.snapshot();

    let mut fresh = Metadata::new();
    fresh.restore(&snap).unwrap();

    // The restored replica answers every query as the source replica does.
    let a = m.get_topic_state("orders").unwrap();
    let b = fresh.get_topic_state("orders").unwrap();
    assert_eq!(a.current_segment, b.current_segment);
    assert_eq!(a.leader_node, b.leader_node);
    assert_eq!(a.last_sealed_entry_offset, b.last_sealed_entry_offset);
    assert_eq!(a.retention, b.retention);
    assert_eq!(fresh.sealed_count("orders", 1), Some(42));
    assert_eq!(fresh.segment_leader("orders", 1), Some(1));
    assert_eq!(fresh.segment_leader("orders", 2), Some(2));
    let lt = fresh.get_topic_state("logs").unwrap();
    assert_eq!(lt.retention, RetentionPolicy::hybrid(24, 5));
    assert_eq!(fresh.get_node_addr(1), Some("127.0.0.1:7001".to_string()));
    assert!(fresh.user_exists("admin"));
    assert!(fresh.authenticate("admin", "s3cret").is_some());
    assert!(fresh.authenticate_with_api_key("abc").is_some());

    // And its own snapshot is byte-for-byte the same document.
    assert_eq!(fresh.snapshot(), snap);
}

#[test]
fn test_restore_rejects_garbage() {
    let mut m = build_sample();
    let before = m.snapshot();
    assert!(m.restore(&[1, 2, 3]).is_err());
    // The failed restore changed nothing.
    assert_eq!(m.snapshot(), before);
}

#[test]
fn test_restore_rejects_trailing_bytes() {
    let m = build_sample();
    let mut snap = m.snapshot();
    snap.push(0);
    let mut fresh = Metadata::new();
    assert!(fresh.restore(&snap).is_err());
}

#[test]
fn test_apply_decodes_wire_commands() {
    let mut m = Metadata::new();
    let bytes = encode_cmd(&MetadataCmd::CreateTopic {
        name: "t".to_string(),
        initial_leader: 7,
    });
    assert_eq!(m.apply(&bytes).unwrap(), "CREATED");
    assert_eq!(m.get_topic_state("t").unwrap().leader_node, 7);

    let roll = encode_cmd(&MetadataCmd::RolloverTopic {
        name: "t".to_string(),
        new_leader: 8,
        sealed_segment_entry_count: 5,
    });
    assert_eq!(m.apply(&roll).unwrap(), "ROLLED");
    assert_eq!(m.sealed_count("t", 1), Some(5));

    let del = encode_cmd(&MetadataCmd::DeleteSegments {
        topic: "t".to_string(),
        segment_ids: vec![1],
    });
    assert_eq!(m.apply(&del).unwrap(), "SEGMENTS_DELETED");
    assert_eq!(m.sealed_count("t", 1), None);
}

#[test]
fn test_apply_rejects_undecodable_bytes() {
    let mut m = Metadata::new();
    assert!(m.apply(&[]).is_err());
    assert!(m.apply(&[99]).is_err());
    let mut ok = encode_cmd(&MetadataCmd::CreateTopic { name: "t".to_string(), initial_leader: 1 });
    ok.push(0);
    // Trailing bytes mean version skew or corruption: refused outright.
    assert!(m.apply(&ok).is_err());
    assert!(m.get_topic_state("t").is_none());
}

#[test]
fn test_empty_snapshot_round_trips() {
    let m = Metadata::new();
    let snap = m.snapshot();
    let mut fresh = build_sample();
    fresh.restore(&snap).unwrap();
    assert!(fresh.get_topic_state("orders").is_none());
    assert!(!fresh.has_users());
    assert_eq!(fresh.all_node_addrs(), vec![]);
}
