use ferres_db_core::id_map::{filtered_initial_ef, filtered_next_ef, search_sizes, IdMap};

#[test]
fn id_map_gives_dense_ids_and_tombstones() {
    let mut m = IdMap::new();
    assert_eq!(m.add("a".to_string()), 0);
    assert_eq!(m.add("b".to_string()), 1);
    assert_eq!(m.add("c".to_string()), 2);
    assert_eq!(m.live_count(), 3);
    m.tombstone("b");
    m.tombstone("b");
    m.tombstone("unknown");
    assert_eq!(m.tombstone_count(), 1);
    assert_eq!(m.live_count(), 2);
    assert_eq!(m.id_count(), 3);
    assert!(m.is_tombstoned(&"b".to_string()));
    assert_eq!(m.live_id(0).map(|s| s.as_str()), Some("a"));
    assert_eq!(m.live_id(1), None);
    assert_eq!(m.live_id(7), None);
    assert_eq!(m.stored_id(1).map(|s| s.as_str()), Some("b"));
    assert_eq!(m.stored_id(3), None);
    m.clear();
    assert_eq!(m.id_count(), 0);
    assert_eq!(m.tombstone_count(), 0);
}

#[test]
fn unfiltered_results_skip_tombstones_and_stop_at_k() {
    let mut m = IdMap::new();
    for id in ["a", "b", "c", "d"] {
        m.add(id.to_string());
    }
    m.tombstone("b");
    // the graph answered data ids 1, 9 (unknown), 0, 3, 2
    let d_ids = vec![1, 9, 0, 3, 2];
    assert_eq!(m.live_results(&d_ids, 2), vec![2, 3]);
    assert_eq!(m.live_results(&d_ids, 10), vec![2, 3, 4]);
    assert_eq!(m.known_results(&d_ids), vec![0, 2, 3, 4]);
}

#[test]
fn search_size_planning() {
    // k capped by the ids, neighbours asked for cover the tombstones
    assert_eq!(search_sizes(10, 100, 5, 50), (10, 15, 50));
    assert_eq!(search_sizes(10, 8, 5, 3), (8, 8, 8));
    assert_eq!(search_sizes(usize::MAX, 100, usize::MAX, 0), (100, 100, 100));
    assert_eq!(filtered_initial_ef(50, 20, 1000), 100);
    assert_eq!(filtered_initial_ef(50, 5, 1000), 50);
    assert_eq!(filtered_initial_ef(50, 5, 30), 30);
    assert_eq!(filtered_next_ef(100, 1000), Some(200));
    assert_eq!(filtered_next_ef(600, 1000), Some(1000));
    assert_eq!(filtered_next_ef(1000, 1000), None);
    assert_eq!(filtered_next_ef(0, 1000), None);
}

#[test]
fn adding_a_point_again_retires_its_old_node() {
    let mut m = IdMap::new();
    m.add("a".to_string());
    m.add("b".to_string());
    m.add("a".to_string());
    assert_eq!(m.live_id(0), None);
    assert_eq!(m.live_id(2).map(|s| s.as_str()), Some("a"));
    assert_eq!(m.live_count(), 2);
    assert_eq!(m.tombstone_count(), 1);
    // the old node never comes back from a search
    assert_eq!(m.live_results(&vec![0, 1, 2], 10), vec![1, 2]);
}

#[test]
fn adding_a_removed_point_again_lifts_its_tombstone() {
    let mut m = IdMap::new();
    m.add("a".to_string());
    m.tombstone("a");
    assert_eq!(m.live_count(), 0);
    assert_eq!(m.add("a".to_string()), 1);
    assert!(!m.is_tombstoned(&"a".to_string()));
    assert_eq!(m.live_id(0), None);
    assert_eq!(m.live_id(1).map(|s| s.as_str()), Some("a"));
    assert_eq!(m.live_count(), 1);
    assert_eq!(m.tombstone_count(), 1);
}
