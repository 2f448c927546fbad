use distributed_walrus::metadata::Metadata;
use distributed_walrus::metadata::MetadataCmd;
use distributed_walrus::retention::RetentionPolicy;
use distributed_walrus::sweeper::plan_deletions;

const HOUR: u64 = 3600;

/// A topic with three sealed segments (1, 2, 3) and segment 4 open, created
/// an hour apart starting at `start`, under the given policy.
fn topic_with_three_sealed(policy: RetentionPolicy, start: u64) -> Metadata {
    let mut m = Metadata::new();
    m.apply_cmd(&MetadataCmd::CreateTopic { name: "t".to_string(), initial_leader: 1 }, start)
        .unwrap();
    for i in 0..3u64 {
        m.apply_cmd(
            &MetadataCmd::RolloverTopic {
                name: "t".to_string(),
                new_leader: 1,
                sealed_segment_entry_count: 10,
            },
            start + (i + 1) * HOUR,
        )
        .unwrap();
    }
    m.apply_cmd(&MetadataCmd::SetRetention { topic: "t".to_string(), policy }, start).unwrap();
    m
}

#[test]
fn test_plan_time_based_spares_newest() {
    // Sealed segments 1, 2, 3 were created at 0h, 1h and 2h, so at 26h they
    // are 26h, 25h and 24h old. The 24h rule fires strictly above the limit:
    // segments 1 and 2 go, segment 3 stays (and the floor protects it too).
    let m = topic_with_three_sealed(RetentionPolicy::time_based(24), 0);
    let t = m.get_topic_state("t").unwrap();
    let plan = plan_deletions(&t, 26 * HOUR);
    assert_eq!(plan, vec![1, 2]);
}

#[test]
fn test_plan_size_based_keeps_newest() {
    let m = topic_with_three_sealed(RetentionPolicy::size_based(1), 0);
    let t = m.get_topic_state("t").unwrap();
    // Fresh segments, but only one may remain: the two oldest go.
    let plan = plan_deletions(&t, 3 * HOUR);
    assert_eq!(plan, vec![1, 2]);
}

#[test]
fn test_plan_never_empties_the_topic() {
    // A brutal 1-hour limit still refuses to delete the newest sealed
    // segment: deleting it would leave nothing newer behind.
    let m = topic_with_three_sealed(RetentionPolicy::time_based(1), 0);
    let t = m.get_topic_state("t").unwrap();
    let plan = plan_deletions(&t, 1000 * HOUR);
    assert_eq!(plan, vec![1, 2]);
}

#[test]
fn test_plan_unconfigured_policy_deletes_nothing() {
    let m = topic_with_three_sealed(RetentionPolicy::default(), 0);
    let t = m.get_topic_state("t").unwrap();
    let plan = plan_deletions(&t, 1000 * HOUR);
    assert_eq!(plan, Vec::<u64>::new());
}

#[test]
fn test_plan_feeds_delete_command() {
    // The sweeper's full turn: plan, then commit the deletion through the
    // state machine.
    let mut m = topic_with_three_sealed(RetentionPolicy::size_based(1), 0);
    let t = m.get_topic_state("t").unwrap();
    let plan = plan_deletions(&t, 3 * HOUR);
    assert!(!plan.is_empty());
    let cmd = MetadataCmd::DeleteSegments { topic: "t".to_string(), segment_ids: plan };
    assert_eq!(m.apply_cmd(&cmd, 4 * HOUR).unwrap(), "SEGMENTS_DELETED");
    assert_eq!(m.sealed_count("t", 1), None);
    assert_eq!(m.sealed_count("t", 2), None);
    assert_eq!(m.sealed_count("t", 3), Some(10));
}
