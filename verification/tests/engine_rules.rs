use ferres_db_core::cost::{estimated_memory_bytes, search_recommendations};
use ferres_db_core::error::FerresError;
use ferres_db_core::filter::{filter_shape_error, namespace_key, FilterOp, JsonKind};
use ferres_db_core::point_id::{
    expired_points, names_main_vector, parse_storage_id, storage_id_from_parts,
    validate_dimension, validate_point_shape,
};
use ferres_db_core::quantization::{
    pack_signs, unpack_signs, default_bits_per_angle, default_qjl_m, default_qjl_seed, PolarQuantConfig, QjlParams,
};
use ferres_db_core::reindex::{
    estimate_index_size, needs_reindex, plan_delta, tombstone_memory_waste, ReindexStats,
};
use ferres_db_core::report::{decimal_string, embedding_dimension_for_model, format_num};
use ferres_db_core::search::{auto_tune_ef_search, parse_distance, DistanceMetric, HnswConfig};
use ferres_db_core::time::{unix_duration, unix_now, unix_now_millis};
use std::time::Duration;

// ─── time ──────────────────────────────────────────────────────────

#[test]
fn unix_now_is_positive() {
    assert!(unix_now() > 0);
}

#[test]
fn unix_now_millis_is_positive() {
    assert!(unix_now_millis() > 0);
}

#[test]
fn unix_duration_is_positive() {
    assert!(unix_duration() > Duration::ZERO);
}

#[test]
fn millis_is_consistent_with_secs() {
    let secs = unix_now();
    let millis = unix_now_millis();
    assert!(millis as u64 / 1000 >= secs);
}

// ─── reindex ───────────────────────────────────────────────────────

#[test]
fn test_needs_reindex() {
    assert!(!needs_reindex(0, 100));
    assert!(!needs_reindex(10, 100));
    assert!(!needs_reindex(20, 100));
    assert!(needs_reindex(21, 100));
    assert!(needs_reindex(50, 100));
    assert!(!needs_reindex(0, 0));
}

#[test]
fn test_estimate_index_size() {
    let size = estimate_index_size(1000, 384, 16);
    assert!(size > 0);
    assert_eq!(size, 1_664_000);
}

#[test]
fn test_reindex_stats_default() {
    let stats = ReindexStats::default();
    assert_eq!(stats.points_processed, 0);
    assert_eq!(stats.points_total, 0);
    assert_eq!(stats.tombstones_cleaned, 0);
}

#[test]
fn plan_delta_lists_additions_and_removals() {
    let snapshot = vec!["a".to_string(), "b".to_string(), "c".to_string()];
    let current = vec!["b".to_string(), "d".to_string(), "a".to_string(), "e".to_string()];
    let (added, removed) = plan_delta(&snapshot, &current);
    assert_eq!(added, vec!["d".to_string(), "e".to_string()]);
    assert_eq!(removed, vec!["c".to_string()]);
}

// ─── quantization ──────────────────────────────────────────────────

#[test]
fn test_sq8_memory() {
    let dim = 384;
    let n = 1000;

    let f32_bytes = n * dim * std::mem::size_of::<f32>();
    let u8_bytes = n * dim * std::mem::size_of::<u8>();

    let ratio = f32_bytes as f64 / u8_bytes as f64;
    assert!((ratio - 4.0).abs() < 0.01, "expected ~4x compression, got {ratio:.2}x");

    assert_eq!(f32_bytes, n * dim * 4);
    assert_eq!(u8_bytes, (n * dim));
}

#[test]
fn test_polar_memory_footprint() {
    let dim = 128usize;
    let f32_bytes = dim * 4;
    let polar_angles = dim - 1;
    let polar_bytes = std::mem::size_of::<f32>() + polar_angles;
    assert!(
        polar_bytes < f32_bytes,
        "PolarQuantized ({polar_bytes} B) should be smaller than f32 ({f32_bytes} B)"
    );
}

#[test]
fn qjl_projection_is_a_sign_matrix_fixed_by_the_seed() {
    let a = QjlParams::new(32, 64, 42);
    let b = QjlParams::new(32, 64, 42);
    let c = QjlParams::new(32, 64, 7);
    assert_eq!(a.m, 64);
    assert_eq!(a.dim, 32);
    assert_eq!(a.seed, 42);
    assert_eq!(a.projection_matrix().len(), 64);
    assert!(a.projection_matrix().iter().all(|row| row.len() == 32));
    assert!(a.projection_matrix().iter().flatten().all(|&x| x == 1 || x == -1));
    assert_eq!(a.projection_matrix(), b.projection_matrix());
    assert_ne!(a.projection_matrix(), c.projection_matrix());
}

#[test]
fn quantization_defaults() {
    assert_eq!(default_bits_per_angle(), 8);
    assert_eq!(PolarQuantConfig::default().bits_per_angle, 8);
    assert_eq!(default_qjl_m(), 64);
    assert_eq!(default_qjl_seed(), 42);
}

// ─── points ────────────────────────────────────────────────────────

#[test]
fn point_rejects_empty_id() {
    let result = validate_point_shape("", 1);
    assert!(result.is_err());
    assert!(result.unwrap_err().message().contains("empty"), "error should mention empty id");
}

#[test]
fn point_rejects_empty_vector() {
    let result = validate_point_shape("p1", 0);
    assert!(result.is_err());
    assert!(matches!(result, Err(FerresError::EmptyVector)));
    assert!(validate_point_shape("p1", 3).is_ok());
}

#[test]
fn point_storage_id_without_namespace() {
    assert_eq!(storage_id_from_parts(None, "p1"), "p1");
}

#[test]
fn point_storage_id_with_namespace() {
    assert_eq!(storage_id_from_parts(Some("tenant"), "p1"), "tenant\0p1");
}

#[test]
fn storage_id_parses_back() {
    assert_eq!(parse_storage_id("tenant\0p1"), (Some("tenant".to_string()), "p1".to_string()));
    assert_eq!(parse_storage_id("p1"), (None, "p1".to_string()));
    assert_eq!(parse_storage_id("a\0b\0c"), (Some("a".to_string()), "b\0c".to_string()));
}

#[test]
fn point_vector_for_field_default_and_named() {
    assert!(names_main_vector(None));
    assert!(names_main_vector(Some("default")));
    assert!(!names_main_vector(Some("title_vector")));
    assert!(!names_main_vector(Some("content_vector")));
    assert!(!names_main_vector(Some("other")));
}

#[test]
fn dimension_check_names_both_lengths() {
    assert!(validate_dimension(3, 3).is_ok());
    match validate_dimension(3, 2) {
        Err(FerresError::DimensionMismatch { expected, got }) => assert_eq!((expected, got), (3, 2)),
        _ => panic!("expected DimensionMismatch"),
    }
}

#[test]
fn vacuum_expired_points_removes_only_expired() {
    let now = unix_now();
    let points = vec![
        ("exp1".to_string(), Some(1)),
        ("exp2".to_string(), Some(now + 3600)),
        ("exp3".to_string(), None),
    ];
    let removed = expired_points(&points, now);
    assert_eq!(removed.len(), 1);
    assert_eq!(removed, vec!["exp1".to_string()]);
    // an expiry time equal to now has not passed yet
    assert!(expired_points(&vec![("x".to_string(), Some(now))], now).is_empty());
}

// ─── search tuning and cost ────────────────────────────────────────

#[test]
fn hnsw_config_defaults() {
    let c = HnswConfig::default();
    assert_eq!(c.max_nb_connection, 16);
    assert_eq!(c.max_elements, 10_000);
    assert_eq!(c.max_layer, 16);
    assert_eq!(c.ef_construction, 200);
    assert_eq!(c.ef_search, 50);
}

#[test]
fn auto_tune_steps_within_band() {
    // base 50: band [25, 100]
    assert_eq!(auto_tune_ef_search(50, 50, true, false, true), 60);
    assert_eq!(auto_tune_ef_search(95, 50, true, false, true), 100);
    assert_eq!(auto_tune_ef_search(100, 50, true, false, true), 100);
    assert_eq!(auto_tune_ef_search(50, 50, true, false, false), 50);
    assert_eq!(auto_tune_ef_search(50, 50, false, true, false), 40);
    assert_eq!(auto_tune_ef_search(30, 50, false, true, true), 25);
    assert_eq!(auto_tune_ef_search(25, 50, false, true, true), 25);
    assert_eq!(auto_tune_ef_search(50, 50, false, false, true), 50);
    // base 150: band [75, 200]
    assert_eq!(auto_tune_ef_search(195, 150, true, false, true), 200);
    // base 10: band [10, 20]
    assert_eq!(auto_tune_ef_search(12, 10, false, true, false), 10);
}

#[test]
fn test_recommendations_high_limit() {
    let recs = search_recommendations(200, false, 10_000, 128, 50);
    assert!(recs.iter().any(|r| r.contains("limit")), "should recommend reducing limit when > 100");
}

#[test]
fn test_recommendations_large_collection_with_filter() {
    let recs = search_recommendations(10, true, 200_000, 128, 50);
    assert!(recs.iter().any(|r| r.contains("Filtros")), "should warn about filters on large collections");
}

#[test]
fn test_recommendations_high_dimension() {
    let recs = search_recommendations(10, false, 10_000, 2048, 50);
    assert!(
        recs.iter().any(|r| r.contains("dimensão") || r.contains("dimensionalidade")),
        "should recommend reducing dimension when > 1024"
    );
}

#[test]
fn test_ef_search_recommendation() {
    let recs = search_recommendations(10, false, 10_000, 128, 300);
    assert!(recs.iter().any(|r| r.contains("ef_search")), "should recommend a lower ef_search when > 200");
}

#[test]
fn recommendations_in_order_and_none_for_small_queries() {
    assert!(search_recommendations(10, false, 10_000, 128, 50).is_empty());
    let recs = search_recommendations(500, false, 2_000_000, 2048, 400);
    assert_eq!(recs.len(), 4);
    assert!(recs[0].contains("limit"));
    assert!(recs[1].contains("dimensionalidade"));
    assert!(recs[2].contains("ef_search"));
    assert!(recs[3].contains("1M"));
}

#[test]
fn memory_estimate_formula() {
    // 100 nodes * (384*4 + 64) + 10 results * (384*4 + 256)
    assert_eq!(estimated_memory_bytes(100, 384, 10), 100 * 1600 + 10 * 1792);
    // limit 0 counts as 1
    assert_eq!(estimated_memory_bytes(0, 3, 0), 3 * 4 + 256);
}

// ─── filter operators ──────────────────────────────────────────────

#[test]
fn filter_operators_parse() {
    assert_eq!(FilterOp::parse("price", "$gte", JsonKind::Number).unwrap(), FilterOp::Gte);
    assert_eq!(FilterOp::parse("status", "$in", JsonKind::Array).unwrap(), FilterOp::In);
    assert_eq!(FilterOp::parse("status", "$eq", JsonKind::String).unwrap(), FilterOp::Eq);
    assert_eq!(FilterOp::parse("status", "$ne", JsonKind::Null).unwrap(), FilterOp::Ne);
    assert_eq!(FilterOp::Lte.name(), "$lte");
    assert!(FilterOp::Lt.is_numeric());
    assert!(!FilterOp::In.is_numeric());
}

#[test]
fn filter_operator_errors() {
    let reason = |r: Result<FilterOp, FerresError>| match r {
        Err(FerresError::InvalidVector { reason }) => reason,
        _ => panic!("expected InvalidVector"),
    };
    assert_eq!(reason(FilterOp::parse("x", "$foo", JsonKind::Number)), "filter.x: unknown operator '$foo'");
    assert_eq!(reason(FilterOp::parse("tags", "$in", JsonKind::String)), "filter.tags: $in must be an array");
    assert_eq!(reason(FilterOp::parse("price", "$gt", JsonKind::String)), "filter.price: $gt must be a number");
    assert!(namespace_key("$namespace"));
    assert!(!namespace_key("namespace"));
    match filter_shape_error(false) {
        FerresError::InvalidVector { reason } => assert_eq!(reason, "filter must be a JSON object or null"),
        _ => panic!(),
    }
    match filter_shape_error(true) {
        FerresError::InvalidVector { reason } => assert_eq!(reason, "filter.$namespace must be a string"),
        _ => panic!(),
    }
}

// ─── reports and messages ──────────────────────────────────────────

#[test]
fn format_num_groups_thousands() {
    assert_eq!(format_num(0), "0");
    assert_eq!(format_num(999), "999");
    assert_eq!(format_num(1000), "1,000");
    assert_eq!(format_num(1234567), "1,234,567");
    assert_eq!(decimal_string(1234567), "1234567");
}

#[test]
fn embedding_dimensions() {
    assert_eq!(embedding_dimension_for_model("text-embedding-3-large"), 3072);
    assert_eq!(embedding_dimension_for_model("text-embedding-3-small"), 1536);
    assert_eq!(embedding_dimension_for_model("something-else"), 1536);
}

#[test]
fn error_messages() {
    assert_eq!(
        FerresError::DimensionMismatch { expected: 3, got: 2 }.message(),
        "dimension mismatch: expected 3, got 2"
    );
    assert_eq!(FerresError::PointNotFound("x".into()).message(), "point not found: x");
    assert_eq!(FerresError::EmptyVector.message(), "vector cannot be empty");
    assert_eq!(FerresError::Storage("disk".into()).message(), "storage error: disk");
    assert_eq!(
        FerresError::IndexNotBuilt.message(),
        "index not built: call build() before searching"
    );
    assert_eq!(FerresError::InvalidPointId("e".into()).message(), "invalid point id: e");
    assert_eq!(FerresError::CollectionNotFound("c".into()).message(), "collection not found: c");
    assert_eq!(
        FerresError::CollectionAlreadyExists("c".into()).message(),
        "collection already exists: c"
    );
    assert_eq!(
        FerresError::InvalidVector { reason: "r".into() }.message(),
        "invalid vector: r"
    );
}

#[test]
fn distance_names_parse_case_insensitively() {
    assert_eq!(parse_distance("Cosine").unwrap(), DistanceMetric::Cosine);
    assert_eq!(parse_distance("EUCLIDEAN").unwrap(), DistanceMetric::Euclidean);
    assert_eq!(parse_distance("dot").unwrap(), DistanceMetric::DotProduct);
    assert_eq!(parse_distance("DotProduct").unwrap(), DistanceMetric::DotProduct);
    match parse_distance("manhattan") {
        Err(FerresError::Storage(m)) => assert_eq!(
            m,
            "invalid distance metric: manhattan. Valid options: cosine, euclidean, dotproduct"
        ),
        _ => panic!("expected Storage error"),
    }
}

#[test]
fn sign_bits_pack_and_unpack() {
    assert_eq!(pack_signs(&vec![true, false, true]), vec![5u64]);
    assert!(pack_signs(&vec![]).is_empty());
    let mut signs = vec![false; 70];
    signs[0] = true;
    signs[63] = true;
    signs[64] = true;
    signs[69] = true;
    let words = pack_signs(&signs);
    assert_eq!(words, vec![1u64 | (1u64 << 63), 1u64 | (1u64 << 5)]);
    assert_eq!(unpack_signs(&words, 70), signs);
    // asking for fewer bits, or for more than the words hold
    assert_eq!(unpack_signs(&words, 3), vec![true, false, false]);
    assert_eq!(unpack_signs(&words, 500).len(), 128);
}

#[test]
fn tombstone_waste_formula() {
    assert_eq!(tombstone_memory_waste(10, 384, true, 2), 3840 + 15360 + 640 + 160);
    assert_eq!(tombstone_memory_waste(10, 384, false, 0), 3840 + 640);
    assert_eq!(tombstone_memory_waste(0, 384, true, 2), 0);
}
