use distributed_walrus::retention::RetentionPolicy;
use distributed_walrus::retention::SegmentInfo;

#[test]
fn test_time_based_retention() {
    let policy = RetentionPolicy::time_based(24); // 24 hours

    // Old segment should be deleted
    let old_age = 25 * 3600; // 25 hours
    assert!(policy.should_delete_segment(old_age, 10, 0));

    // Recent segment should be kept
    let new_age = 1 * 3600; // 1 hour
    assert!(!policy.should_delete_segment(new_age, 10, 0));
}

#[test]
fn test_size_based_retention() {
    let policy = RetentionPolicy::size_based(5); // Keep 5 segments

    // With 10 total segments, first 5 should be deleted
    assert!(policy.should_delete_segment(0, 10, 0));
    assert!(policy.should_delete_segment(0, 10, 4));

    // Latest 5 should be kept
    assert!(!policy.should_delete_segment(0, 10, 5));
    assert!(!policy.should_delete_segment(0, 10, 9));
}

#[test]
fn test_min_segments_protection() {
    let policy = RetentionPolicy::time_based(1); // 1 hour

    // Even if segment is old, keep it if it's the last one
    let old_age = 100 * 3600;
    assert!(!policy.should_delete_segment(old_age, 1, 0));
}

#[test]
fn test_hybrid_retention() {
    let policy = RetentionPolicy::hybrid(24, 5);

    // Old segment beyond size limit should be deleted
    let old_age = 25 * 3600;
    assert!(policy.should_delete_segment(old_age, 10, 0));

    // Recent segment within size limit should be kept
    let new_age = 1 * 3600;
    assert!(!policy.should_delete_segment(new_age, 10, 6));
}

#[test]
fn test_default_policy_disabled() {
    let policy = RetentionPolicy::default();
    assert!(!policy.is_enabled());
    assert_eq!(policy.max_age_hours, None);
    assert_eq!(policy.max_segments, None);
    assert_eq!(policy.min_segments_to_keep, 1);
    assert_eq!(policy.describe(), "unlimited");
}

#[test]
fn test_is_enabled_with_limits() {
    assert!(RetentionPolicy::time_based(1).is_enabled());
    assert!(RetentionPolicy::size_based(3).is_enabled());
    assert!(RetentionPolicy::hybrid(1, 3).is_enabled());
}

#[test]
fn test_describe_renders_limits() {
    assert_eq!(RetentionPolicy::time_based(5).describe(), "5h");
    assert_eq!(RetentionPolicy::time_based(24).describe(), "1d");
    assert_eq!(RetentionPolicy::time_based(48).describe(), "2d");
    assert_eq!(RetentionPolicy::size_based(5).describe(), "5 segments");
    assert_eq!(RetentionPolicy::hybrid(36, 7).describe(), "1d or 7 segments");
    assert_eq!(RetentionPolicy::hybrid(23, 120).describe(), "23h or 120 segments");
}

#[test]
fn test_segment_age_at() {
    let info = SegmentInfo { segment_id: 3, created_at: 1_000, is_sealed: true };
    assert_eq!(info.age_at(1_500), 500);
    assert_eq!(info.age_at(1_000), 0);
    // A clock that went backwards yields age zero, not a panic.
    assert_eq!(info.age_at(900), 0);
}

#[test]
fn test_age_boundary_is_strict() {
    // Exactly at the limit the segment survives; one second past it goes.
    let policy = RetentionPolicy::time_based(1);
    assert!(!policy.should_delete_segment(3600, 10, 0));
    assert!(policy.should_delete_segment(3601, 10, 0));
}
