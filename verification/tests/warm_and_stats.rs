use ferres_db_core::error::FerresError;
use ferres_db_core::filter::{FilterOp, JsonKind};
use ferres_db_core::fusion::{rank_of, rank_table, DEFAULT_RRF_K};
use ferres_db_core::stats::{deletion_outcome, validate_new_collection, CollectionInfo, CollectionStats};
use ferres_db_core::tiered::{get_tier_at_from_last_access, StorageTier, TieredStorageConfig};
use ferres_db_core::warm::WarmIndex;

fn storage_msg(r: Result<usize, FerresError>) -> String {
    match r {
        Err(FerresError::Storage(m)) => m,
        other => panic!("expected Storage error, got {:?}", other),
    }
}

#[test]
fn warm_index_appends_at_file_end() {
    let mut w = WarmIndex::new(3);
    assert!(w.is_empty());
    assert_eq!(w.append("a"), 0);
    assert_eq!(w.append("b"), 12);
    assert_eq!(w.end(), 24);
    w.remove("a");
    assert!(!w.contains("a"));
    assert_eq!(w.len(), 1);
    // the next slot goes after every slot written so far, never over "b"
    assert_eq!(w.append("c"), 24);
    assert_eq!(w.end(), 36);
    assert_eq!(w.locate("b", Some(36)).unwrap(), 12);
    assert_eq!(w.locate("c", Some(36)).unwrap(), 24);
    // re-adding a vector moves it to a fresh slot
    assert_eq!(w.append("b"), 36);
    assert_eq!(w.locate("b", Some(48)).unwrap(), 36);
    let mut entries = w.entries();
    entries.sort();
    assert_eq!(entries, vec![("b".to_string(), 36), ("c".to_string(), 24)]);
}

#[test]
fn warm_index_locate_errors() {
    let mut w = WarmIndex::new(2);
    w.append("x");
    assert_eq!(storage_msg(w.locate("y", Some(100))), "vector 'y' not found in warm storage");
    assert_eq!(storage_msg(w.locate("x", None)), "warm storage mmap not initialized");
    assert_eq!(storage_msg(w.locate("x", Some(7))), "warm vector offset out of bounds for 'x'");
    assert_eq!(w.locate("x", Some(8)).unwrap(), 0);
}

#[test]
fn warm_index_crash_recovery() {
    let saved = vec![("a".to_string(), 0), ("b".to_string(), 12), ("c".to_string(), 24)];
    // the file holds a and b and 6 bytes of a partial write
    let (w, rec) = WarmIndex::load(3, &saved, 30);
    assert_eq!(rec.valid_end, 24);
    assert_eq!(rec.truncate_to, Some(24));
    assert!(rec.index_changed);
    assert_eq!(w.end(), 24);
    assert!(w.contains("a") && w.contains("b") && !w.contains("c"));

    // a consistent file: nothing to do
    let (w2, rec2) = WarmIndex::load(3, &saved, 36);
    assert_eq!(rec2.valid_end, 36);
    assert_eq!(rec2.truncate_to, None);
    assert!(!rec2.index_changed);
    assert_eq!(w2.len(), 3);

    // no entry left: the file is not cut
    let (w3, rec3) = WarmIndex::load(3, &saved, 5);
    assert_eq!(rec3.valid_end, 0);
    assert_eq!(rec3.truncate_to, None);
    assert!(rec3.index_changed);
    assert!(w3.is_empty());
    assert_eq!(w3.end(), 5);
}

#[test]
fn warm_index_compaction_lays_slots_in_order() {
    let mut w = WarmIndex::new(4);
    w.append("a");
    w.append("b");
    w.append("c");
    w.remove("b");
    w.compact(&vec!["c".to_string(), "a".to_string()]);
    assert_eq!(w.end(), 32);
    assert_eq!(w.locate("c", Some(32)).unwrap(), 0);
    assert_eq!(w.locate("a", Some(32)).unwrap(), 16);
    assert!(!w.contains("b"));
}

#[test]
fn collection_stats_from_parts() {
    let s = CollectionStats::from_parts(1000, 384, 16, &vec![5, 9, 7]);
    assert_eq!(s.num_points, 1000);
    assert_eq!(s.index_size_bytes, 1_664_000);
    assert_eq!(s.last_updated, 9);
    let empty = CollectionStats::from_parts(0, 384, 16, &vec![]);
    assert_eq!(empty.index_size_bytes, 0);
    assert!(empty.last_updated > 0);

    let info = CollectionInfo::from_parts("docs".to_string(), 3, 3, &vec![5, 9, 7]);
    assert_eq!(info.name, "docs");
    assert_eq!(info.created_at, 5);
    assert_eq!(CollectionInfo::from_parts("e".to_string(), 3, 0, &vec![]).created_at, 0);
}

#[test]
fn new_collection_rules() {
    assert!(validate_new_collection(false, "docs", 3).is_ok());
    match validate_new_collection(true, "docs", 3) {
        Err(FerresError::CollectionAlreadyExists(n)) => assert_eq!(n, "docs"),
        _ => panic!("expected CollectionAlreadyExists"),
    }
    match validate_new_collection(false, "docs", 0) {
        Err(FerresError::InvalidVector { reason }) => assert_eq!(reason, "dimension must be greater than 0"),
        _ => panic!("expected InvalidVector"),
    }
}

#[test]
fn tier_never_rises_as_time_passes() {
    let c = TieredStorageConfig {
        enabled: true,
        hot_threshold_hours: 2,
        warm_threshold_hours: 10,
        compaction_interval_secs: 60,
    };
    let rank = |t: StorageTier| match t {
        StorageTier::Hot => 0,
        StorageTier::Warm => 1,
        StorageTier::Cold => 2,
    };
    let mut prev = 0;
    for h in 0..20u64 {
        let r = rank(get_tier_at_from_last_access(Some(1000), &c, 1000 + h * 3600));
        assert!(r >= prev);
        prev = r;
    }
    assert_eq!(prev, 2);
}

#[test]
fn operator_names_parse_back() {
    for op in [
        FilterOp::Eq,
        FilterOp::Ne,
        FilterOp::In,
        FilterOp::Gt,
        FilterOp::Lt,
        FilterOp::Gte,
        FilterOp::Lte,
    ] {
        let kind = if op == FilterOp::In { JsonKind::Array } else { JsonKind::Number };
        assert_eq!(FilterOp::parse("f", op.name(), kind).unwrap(), op);
    }
}

#[test]
fn rank_table_lists_every_id_with_its_ranks() {
    let v = |ids: &[&str]| ids.iter().map(|s| s.to_string()).collect::<Vec<String>>();
    let rankings = vec![v(&["doc-1", "doc-2", "doc-3"]), v(&["doc-2", "doc-4", "doc-1"])];
    let table = rank_table(&rankings);
    assert_eq!(
        table,
        vec![
            ("doc-1".to_string(), vec![1, 3]),
            ("doc-2".to_string(), vec![2, 1]),
            ("doc-3".to_string(), vec![3, u32::MAX]),
            ("doc-4".to_string(), vec![u32::MAX, 2]),
        ]
    );
    // a repeated id keeps its last position
    assert_eq!(rank_of(&v(&["a", "b", "a"]), &"a".to_string()), 3);
    assert!(rank_table(&vec![]).is_empty());
    assert_eq!(DEFAULT_RRF_K, 60);
}

#[test]
fn deletion_outcomes() {
    assert_eq!(deletion_outcome(3, &vec![]).unwrap(), 3);
    match deletion_outcome(3, &vec!["x".to_string()]) {
        Err(FerresError::PointNotFound(m)) => assert_eq!(m, "x"),
        _ => panic!("expected PointNotFound"),
    }
    assert_eq!(deletion_outcome(0, &vec![]).unwrap(), 0);
    match deletion_outcome(2, &vec!["a".to_string(), "b".to_string()]) {
        Err(FerresError::PointNotFound(m)) => assert_eq!(m, "a, b"),
        _ => panic!("expected PointNotFound"),
    }
    match deletion_outcome(1, &vec!["only".to_string()]) {
        Err(FerresError::PointNotFound(m)) => assert_eq!(m, "only"),
        _ => panic!("expected PointNotFound"),
    }
}
