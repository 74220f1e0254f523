use ferres_db_core::collection::{needs_rebuild, CollectionIndex};
use ferres_db_core::error::FerresError;
use ferres_db_core::point_id::storage_id_from_parts;
use ferres_db_core::search_cache::SearchCache;

fn test_config() -> CollectionIndex {
    CollectionIndex::new(3, false, 0)
}

fn make_point(id: &str, vector: Vec<f32>) -> (String, usize, String) {
    (id.to_string(), vector.len(), String::new())
}

#[test]
fn insert_batch_small() {
    let mut col = test_config();
    let points = vec![
        make_point("a", vec![1.0, 0.0, 0.0]),
        make_point("b", vec![0.0, 1.0, 0.0]),
        make_point("c", vec![0.0, 0.0, 1.0]),
    ];

    let result = col.insert_batch(&points).unwrap();
    assert_eq!(result, 3);
    assert_eq!(col.len(), 3);

    assert!(col.get(&"a".to_string()).is_some());
    assert!(col.get(&"b".to_string()).is_some());
    assert!(col.get(&"c".to_string()).is_some());
}

#[test]
fn insert_batch_empty() {
    let mut col = test_config();
    let result = col.insert_batch(&vec![]).unwrap();
    assert_eq!(result, 0);
    assert_eq!(col.len(), 0);
}

#[test]
fn insert_batch_dimension_mismatch() {
    let mut col = test_config();
    let points = vec![make_point("a", vec![1.0, 0.0, 0.0]), make_point("b", vec![0.0, 1.0])];

    let result = col.insert_batch(&points);
    assert!(result.is_err());
}

#[test]
fn insert_batch_large_rebuild() {
    let mut col = CollectionIndex::new(8, false, 0);

    let points: Vec<(String, usize, String)> = (0..150)
        .map(|i| {
            let mut vector = vec![0.0f32; 8];
            vector[i % 8] = 1.0;
            make_point(&format!("p{i}"), vector)
        })
        .collect();

    let result = col.insert_batch(&points).unwrap();
    assert_eq!(result, 150);
    assert_eq!(col.len(), 150);

    assert!(needs_rebuild(150));
    assert_eq!(col.id_map().id_count(), 150);
    assert_eq!(col.id_map().tombstone_count(), 0);
}

#[test]
fn insert_batch_incremental_then_large() {
    let mut col = test_config();

    col.insert("existing1".to_string(), 3, "").unwrap();
    col.insert("existing2".to_string(), 3, "").unwrap();
    assert_eq!(col.len(), 2);

    let small_batch = vec![make_point("batch1", vec![0.0, 0.0, 1.0]), make_point("batch2", vec![0.5, 0.5, 0.0])];
    let result = col.insert_batch(&small_batch).unwrap();
    assert_eq!(result, 2);
    assert_eq!(col.len(), 4);

    assert!(col.get(&"existing1".to_string()).is_some());
    assert!(col.get(&"existing2".to_string()).is_some());
    assert!(col.get(&"batch1".to_string()).is_some());
    assert!(col.get(&"batch2".to_string()).is_some());
}

#[test]
fn batch_mismatch_names_first_bad_point_and_changes_nothing() {
    let mut col = test_config();
    col.insert("keep".to_string(), 3, "").unwrap();
    let points = vec![
        make_point("a", vec![1.0, 0.0, 0.0]),
        make_point("b", vec![0.0, 1.0]),
        make_point("c", vec![0.0]),
    ];
    match col.insert_batch(&points) {
        Err(FerresError::DimensionMismatch { expected, got }) => {
            assert_eq!(expected, 3);
            assert_eq!(got, 2);
        },
        other => panic!("unexpected result: {:?}", other),
    }
    assert_eq!(col.len(), 1);
    assert!(col.get(&"a".to_string()).is_none());
    assert_eq!(col.id_map().id_count(), 1);
}

#[test]
fn batch_last_duplicate_wins_and_text_is_indexed() {
    let mut col = CollectionIndex::new(2, true, 0);
    let points = vec![
        ("x".to_string(), 2, "hello world".to_string()),
        ("y".to_string(), 2, "".to_string()),
        ("x".to_string(), 2, "goodbye".to_string()),
    ];
    assert_eq!(col.insert_batch(&points).unwrap(), 3);
    assert_eq!(col.len(), 2);
    let kw = col.keyword_index().unwrap();
    assert_eq!(kw.len(), 1);
    assert_eq!(kw.term_frequency("x", "goodbye"), 1);
    assert_eq!(kw.term_frequency("x", "hello"), 0);
    // A short batch extends the graph: every point gets a data id.
    assert_eq!(col.id_map().id_count(), 3);
}

#[test]
fn rebuild_gives_each_point_one_data_id() {
    let mut col = CollectionIndex::new(1, false, 0);
    col.insert("old".to_string(), 1, "").unwrap();
    col.insert("old".to_string(), 1, "").unwrap();
    assert_eq!(col.id_map().id_count(), 2);
    let points: Vec<(String, usize, String)> = (0..101).map(|i| (format!("n{i}"), 1, String::new())).collect();
    assert!(needs_rebuild(points.len()));
    assert!(!needs_rebuild(100));
    col.insert_batch(&points).unwrap();
    assert_eq!(col.len(), 102);
    assert_eq!(col.id_map().id_count(), 102);
    assert_eq!(col.id_map().stored_id(0).map(|s| s.as_str()), Some("old"));
    assert_eq!(col.id_map().stored_id(1).map(|s| s.as_str()), Some("n0"));
}

#[test]
fn insert_refuses_wrong_dimension() {
    let mut col = test_config();
    match col.insert("p".to_string(), 2, "") {
        Err(FerresError::DimensionMismatch { expected, got }) => {
            assert_eq!(expected, 3);
            assert_eq!(got, 2);
        },
        other => panic!("unexpected result: {:?}", other),
    }
    assert_eq!(col.len(), 0);
}

#[test]
fn search_cache_finds_stored_results_and_forgets_them_on_change() {
    let mut col = CollectionIndex::new(2, false, 2);
    let key = (7u64, 5usize, None);
    assert!(col.cached_search(&key).is_none());
    col.cache_search(key.clone(), vec![("a".to_string(), 1.5f32.to_bits())]);
    assert_eq!(col.cached_search(&key), Some(vec![("a".to_string(), 1.5f32.to_bits())]));
    // another field is another search
    assert!(col.cached_search(&(7, 5, Some("title".to_string()))).is_none());
    col.insert("p".to_string(), 2, "").unwrap();
    assert!(col.cached_search(&key).is_none());
}

#[test]
fn search_cache_counts_hits_and_misses_and_evicts_least_recent() {
    let mut cache = SearchCache::new(2);
    let k1 = (1u64, 1usize, None);
    let k2 = (2u64, 1usize, None);
    let k3 = (3u64, 1usize, None);
    cache.store(k1.clone(), vec![]);
    cache.store(k2.clone(), vec![]);
    assert!(cache.lookup(&k1).is_some());
    cache.store(k3.clone(), vec![]);
    // k2 was the least recently used
    assert!(cache.lookup(&k2).is_none());
    assert!(cache.lookup(&k1).is_some());
    assert!(cache.lookup(&k3).is_some());
    assert_eq!(cache.hits(), 3);
    assert_eq!(cache.misses(), 1);
    cache.invalidate();
    assert!(cache.lookup(&k1).is_none());
}

#[test]
fn no_search_cache_when_its_size_is_zero() {
    let mut cache = SearchCache::new(0);
    cache.store((1, 1, None), vec![("x".to_string(), 0)]);
    assert!(cache.lookup(&(1, 1, None)).is_none());
    assert_eq!(cache.hits(), 0);
    assert_eq!(cache.misses(), 0);
}

#[test]
fn insert_and_get() {
    let mut col = test_config();
    col.insert("p1".to_string(), 3, "").unwrap();
    assert_eq!(col.len(), 1);
    assert_eq!(col.get(&"p1".to_string()), Some(3));
}

#[test]
fn validate_dimension_correct() {
    let col = test_config();
    assert!(col.validate_dimension(3).is_ok());
}

#[test]
fn validate_dimension_mismatch() {
    let col = test_config();
    let result = col.validate_dimension(2);
    assert!(result.is_err());
    let err = result.unwrap_err();
    assert!(err.message().contains("expected 3"));
    assert!(err.message().contains("got 2"));
}

#[test]
fn dimension_mismatch_rejected_on_insert() {
    let mut col = test_config();
    let result = col.insert("p1".to_string(), 2, "");
    assert!(result.is_err());
}

#[test]
fn remove_point_works() {
    let mut col = test_config();
    col.insert("rm".to_string(), 3, "").unwrap();
    assert_eq!(col.len(), 1);

    col.remove("rm").unwrap();
    assert_eq!(col.len(), 0);
    assert!(col.get(&"rm".to_string()).is_none());
}

#[test]
fn remove_nonexistent_returns_error() {
    let mut col = test_config();
    let result = col.remove("ghost");
    assert!(result.is_err());
}

#[test]
fn removal_tombstones_the_graph_node_and_drops_the_text() {
    let mut col = CollectionIndex::new(1, true, 0);
    col.insert("a".to_string(), 1, "hello").unwrap();
    col.insert("b".to_string(), 1, "world").unwrap();
    match col.remove("zzz") {
        Err(FerresError::PointNotFound(m)) => assert_eq!(m, "zzz"),
        other => panic!("unexpected result: {:?}", other),
    }
    col.remove("a").unwrap();
    assert!(col.id_map().is_tombstoned(&"a".to_string()));
    assert_eq!(col.id_map().id_count(), 2);
    assert_eq!(col.keyword_index().unwrap().len(), 1);
    // data only: the graph node stays live
    assert_eq!(col.remove_data_only("b"), Some(1));
    assert_eq!(col.remove_data_only("b"), None);
    assert!(!col.id_map().is_tombstoned(&"b".to_string()));
    assert_eq!(col.len(), 0);
    col.tombstone_in_index("b");
    assert!(col.id_map().is_tombstoned(&"b".to_string()));
}

#[test]
fn delete_points_tries_every_id_and_names_the_missing() {
    let mut col = test_config();
    for id in ["a", "b", "c"] {
        col.insert(id.to_string(), 3, "").unwrap();
    }
    let ids = vec!["a".to_string(), "x".to_string(), "b".to_string(), "a".to_string()];
    match col.delete_points(&ids, None) {
        Err(FerresError::PointNotFound(m)) => assert_eq!(m, "x, a"),
        other => panic!("unexpected result: {:?}", other),
    }
    assert_eq!(col.len(), 1);
    assert_eq!(col.delete_points(&vec!["c".to_string()], None).unwrap(), 1);
    assert_eq!(col.delete_points(&vec![], None).unwrap(), 0);
    assert_eq!(col.len(), 0);
}

#[test]
fn delete_points_uses_the_namespace_key() {
    let mut col = test_config();
    col.insert(storage_id_from_parts(Some("t1"), "p"), 3, "").unwrap();
    col.insert("p".to_string(), 3, "").unwrap();
    assert_eq!(col.delete_points(&vec!["p".to_string()], Some("t1")).unwrap(), 1);
    assert_eq!(col.len(), 1);
    assert!(col.get(&"p".to_string()).is_some());
}

#[test]
fn reinserting_a_point_leaves_one_live_node() {
    let mut col = test_config();
    col.insert("p1".to_string(), 3, "").unwrap();
    col.insert("p1".to_string(), 3, "").unwrap();
    assert_eq!(col.len(), 1);
    assert_eq!(col.id_map().live_id(0), None);
    assert_eq!(col.id_map().live_id(1).map(|s| s.as_str()), Some("p1"));
    // removed, then inserted again: found again
    col.remove("p1").unwrap();
    assert_eq!(col.id_map().live_id(1), None);
    col.insert("p1".to_string(), 3, "").unwrap();
    assert_eq!(col.id_map().live_id(2).map(|s| s.as_str()), Some("p1"));
    assert_eq!(col.id_map().live_count(), 1);
}

#[test]
fn batch_repeats_retire_earlier_nodes() {
    let mut col = test_config();
    col.insert("a".to_string(), 3, "").unwrap();
    col.remove("a").unwrap();
    let points = vec![make_point("a", vec![1.0, 0.0, 0.0]), make_point("a", vec![0.0, 1.0, 0.0])];
    col.insert_batch(&points).unwrap();
    assert_eq!(col.id_map().live_results(&vec![0, 1, 2], 10), vec![2]);
}
