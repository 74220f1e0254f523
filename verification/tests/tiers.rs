use ferres_db_core::encoding::cold_file_name;
use ferres_db_core::tiered::{
    default_compaction_interval, default_hot_threshold, default_warm_threshold,
    get_tier_at_from_last_access, plan_compaction, should_demote, AccessTracker, StorageTier,
    TierDistribution, TierMetadata, TieredStorageConfig,
};
use ferres_db_core::time::unix_now;
use std::collections::HashMap;

fn tiered_config() -> TieredStorageConfig {
    TieredStorageConfig {
        enabled: true,
        hot_threshold_hours: 24,
        warm_threshold_hours: 168,
        compaction_interval_secs: 3600,
    }
}

#[test]
fn test_access_tracker_record_and_get_tier() {
    let mut tracker = AccessTracker::new();
    let config = tiered_config();

    let now = unix_now();

    tracker.record_access_at("p1", now);
    assert_eq!(tracker.get_tier_at("p1", &config, now), StorageTier::Hot);

    tracker.record_access_at("p2", now - 25 * 3600);
    assert_eq!(tracker.get_tier_at("p2", &config, now), StorageTier::Warm);

    tracker.record_access_at("p3", now - 200 * 3600);
    assert_eq!(tracker.get_tier_at("p3", &config, now), StorageTier::Cold);

    assert_eq!(tracker.get_tier_at("p4", &config, now), StorageTier::Cold);
}

#[test]
fn test_access_tracker_access_count() {
    let mut tracker = AccessTracker::new();

    assert_eq!(tracker.access_count("p1"), 0);

    tracker.record_access("p1");
    assert_eq!(tracker.access_count("p1"), 1);

    tracker.record_access("p1");
    tracker.record_access("p1");
    assert_eq!(tracker.access_count("p1"), 3);
}

#[test]
fn test_tier_demotion() {
    let mut tracker = AccessTracker::new();
    let config = tiered_config();

    let now = unix_now();

    tracker.record_access_at("p1", now);
    tracker.record_access_at("p2", now - 30 * 3600);
    tracker.record_access_at("p3", now - 200 * 3600);

    let current_tiers = vec![
        ("p1".to_string(), StorageTier::Hot),
        ("p2".to_string(), StorageTier::Hot),
        ("p3".to_string(), StorageTier::Hot),
    ];

    let changes = tracker.points_to_demote_at(&config, &current_tiers, now);

    assert_eq!(changes.len(), 2);
    let change_map: HashMap<_, _> = changes.into_iter().collect();
    assert_eq!(change_map.get("p2"), Some(&StorageTier::Warm));
    assert_eq!(change_map.get("p3"), Some(&StorageTier::Cold));
}

#[test]
fn test_cold_point_path_no_collision() {
    let path_slash = cold_file_name("doc/1");
    let path_underscore = cold_file_name("doc_1");

    assert_ne!(
        path_slash, path_underscore,
        "IDs 'doc/1' and 'doc_1' must map to different file paths"
    );

    assert!(path_slash.contains("doc%2F1.json"));
    assert!(path_underscore.contains("doc_1.json"));
}

#[test]
fn test_cold_point_path_special_chars() {
    let ids = [
        "simple",
        "with/slash",
        "with:colon",
        "with space",
        "with/multiple/slashes",
        "unicode_café",
        "mix/of:special chars!",
    ];

    let paths: Vec<String> = ids.iter().map(|id| cold_file_name(id)).collect();
    for (i, p1) in paths.iter().enumerate() {
        for (j, p2) in paths.iter().enumerate() {
            if i != j {
                assert_ne!(p1, p2, "IDs '{}' and '{}' must map to different paths", ids[i], ids[j]);
            }
        }
    }

    for (id, filename) in ids.iter().zip(paths.iter()) {
        assert!(
            !filename.contains('/') && !filename.contains('\\'),
            "path for ID '{}' contains filesystem separators: {}",
            id,
            filename
        );
        assert!(filename.ends_with(".json"), "path for ID '{}' must end with .json: {}", id, filename);
    }
}

#[test]
fn cold_file_name_escapes_exactly() {
    assert_eq!(cold_file_name("simple"), "simple.json");
    assert_eq!(cold_file_name("a b"), "a%20b.json");
    assert_eq!(cold_file_name("café"), "caf%C3%A9.json");
    assert_eq!(cold_file_name("x-y_z.1"), "x-y_z.1.json");
    // two-, three- and four-byte UTF-8 encodings
    assert_eq!(cold_file_name("\u{7ff}\u{20ac}\u{1f600}"), "%DF%BF%E2%82%AC%F0%9F%98%80.json");
}

#[test]
fn tier_thresholds_and_demotions() {
    let c = tiered_config();
    assert_eq!(get_tier_at_from_last_access(None, &c, 1_000_000), StorageTier::Cold);
    assert_eq!(get_tier_at_from_last_access(Some(1_000_000), &c, 1_000_000), StorageTier::Hot);
    // exactly 24 h is no longer Hot
    assert_eq!(get_tier_at_from_last_access(Some(0), &c, 24 * 3600), StorageTier::Warm);
    assert_eq!(get_tier_at_from_last_access(Some(0), &c, 24 * 3600 - 1), StorageTier::Hot);
    assert_eq!(get_tier_at_from_last_access(Some(0), &c, 168 * 3600), StorageTier::Cold);
    // an access in the future counts as now
    assert_eq!(get_tier_at_from_last_access(Some(500), &c, 100), StorageTier::Hot);
    assert!(should_demote(&StorageTier::Hot, &StorageTier::Warm));
    assert!(should_demote(&StorageTier::Warm, &StorageTier::Cold));
    assert!(!should_demote(&StorageTier::Cold, &StorageTier::Hot));
    assert!(!should_demote(&StorageTier::Warm, &StorageTier::Warm));
    assert_eq!(StorageTier::Warm.name(), "warm");
}

#[test]
fn tiered_config_defaults() {
    let c = TieredStorageConfig::default();
    assert!(!c.enabled);
    assert_eq!(c.hot_threshold_hours, 24);
    assert_eq!(c.warm_threshold_hours, 168);
    assert_eq!(c.compaction_interval_secs, 3600);
    assert_eq!(default_hot_threshold(), 24);
    assert_eq!(default_warm_threshold(), 168);
    assert_eq!(default_compaction_interval(), 3600);
}

#[test]
fn compaction_plan_moves_old_points_down() {
    let cfg = TieredStorageConfig {
        enabled: true,
        hot_threshold_hours: 1,
        warm_threshold_hours: 5,
        compaction_interval_secs: 1,
    };
    let now = 100_000;
    let tiers = vec![
        ("recent".to_string(), StorageTier::Hot),
        ("old".to_string(), StorageTier::Hot),
        ("ancient".to_string(), StorageTier::Warm),
        ("never".to_string(), StorageTier::Hot),
    ];
    let last = vec![
        ("recent".to_string(), now),
        ("old".to_string(), now - 2 * 3600),
        ("ancient".to_string(), now - 10 * 3600),
    ];
    let plan = plan_compaction(&tiers, &last, &cfg, now);
    assert_eq!(
        plan.changes,
        vec![
            ("old".to_string(), StorageTier::Warm),
            ("ancient".to_string(), StorageTier::Cold),
            ("never".to_string(), StorageTier::Cold),
        ]
    );
    assert_eq!(plan.to_warm, vec!["old".to_string(), "never".to_string()]);
    assert_eq!(plan.to_cold, vec!["ancient".to_string(), "never".to_string()]);
}

#[test]
fn tier_distribution_counts_and_memory() {
    let tiers = vec![StorageTier::Hot, StorageTier::Hot, StorageTier::Warm, StorageTier::Cold];
    let d = TierDistribution::from_tiers(&tiers, 3);
    assert_eq!(d.hot, 2);
    assert_eq!(d.warm, 1);
    assert_eq!(d.cold, 1);
    assert_eq!(d.hot_memory_bytes, 2 * (3 * 4 + 328));
    assert_eq!(d.warm_memory_bytes, 264);
    assert_eq!(d.cold_memory_bytes, 64);
}

#[test]
fn tracker_remove_and_metadata_export() {
    let mut tracker = AccessTracker::new();
    tracker.record_access_at("a", 10);
    tracker.record_access_at("a", 20);
    tracker.record_access_at("b", 5);
    assert_eq!(tracker.last_access("a"), Some(20));
    assert_eq!(tracker.access_count("a"), 2);
    let meta = TierMetadata::from_parts(
        vec![("a".to_string(), StorageTier::Hot), ("c".to_string(), StorageTier::Cold)],
        &tracker,
    );
    assert_eq!(meta.last_access, vec![("a".to_string(), 20)]);
    assert_eq!(meta.access_count, vec![("a".to_string(), 2)]);
    tracker.remove("a");
    assert_eq!(tracker.last_access("a"), None);
    assert_eq!(tracker.access_count("a"), 0);
    assert_eq!(tracker.last_access_snapshot(), vec![("b".to_string(), 5)]);
}

#[test]
fn compaction_plan_is_empty_when_disabled() {
    let cfg = TieredStorageConfig::default();
    let tiers = vec![("old".to_string(), StorageTier::Hot)];
    let last = vec![("old".to_string(), 0)];
    let plan = plan_compaction(&tiers, &last, &cfg, 1_000_000_000);
    assert!(plan.changes.is_empty());
    assert!(plan.to_warm.is_empty());
    assert!(plan.to_cold.is_empty());
}
