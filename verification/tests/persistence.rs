use ferres_db_core::error::FerresError;
use ferres_db_core::jsonl::{encode_jsonl, jsonl_records};
use ferres_db_core::storage::{
    checksum_hex, checksum_matches, DiskStorage, FileStorage, StorageCircuitBreaker, CB_CLOSED,
    CB_HALF_OPEN, CB_OPEN,
};

#[test]
fn circuit_breaker_passes_through_ok() {
    let mut cb = StorageCircuitBreaker::with_config(3, 60);
    let r = cb.call(|| Ok::<_, FerresError>(42));
    assert!(matches!(r, Ok(42)));
    assert_eq!(cb.state(), CB_CLOSED);
    assert_eq!(cb.failure_count(), 0);
}

#[test]
fn circuit_breaker_opens_after_threshold() {
    let mut cb = StorageCircuitBreaker::with_config(3, 60);

    for _ in 0..3 {
        let r = cb.call(|| Err::<(), _>(FerresError::Storage("disk full".into())));
        assert!(r.is_err());
    }
    assert_eq!(cb.state(), CB_OPEN);
    assert_eq!(cb.failure_count(), 3);

    let mut called = false;
    let r = cb.call(|| {
        called = true;
        Ok(())
    });
    assert!(!called, "closure must not run when circuit is open");
    assert!(r.is_err());
    let msg = r.unwrap_err().message();
    assert!(msg.contains("circuit breaker open"), "got: {msg}");
}

#[test]
fn circuit_breaker_resets_on_success() {
    let mut cb = StorageCircuitBreaker::with_config(2, 60);
    cb.call(|| Err::<(), _>(FerresError::Storage("fail".into()))).ok();
    assert_eq!(cb.failure_count(), 1);
    cb.call(|| Ok(())).unwrap();
    assert_eq!(cb.state(), CB_CLOSED);
    assert_eq!(cb.failure_count(), 0);
}

#[test]
fn circuit_breaker_half_open_after_timeout() {
    let mut cb = StorageCircuitBreaker::with_config(1, 10);
    let r = cb.call_at(100, || Err::<(), _>(FerresError::Storage("x".into())));
    assert!(r.is_err());
    assert_eq!(cb.state(), CB_OPEN);
    // before the timeout: rejected, state unchanged
    let r = cb.call_at(105, || Ok::<u8, FerresError>(1));
    match r {
        Err(FerresError::Storage(m)) => assert_eq!(m, "circuit breaker open"),
        _ => panic!("expected rejection"),
    }
    assert_eq!(cb.failure_count(), 1);
    // after the timeout a failing trial reopens it
    let r = cb.call_at(110, || Err::<(), _>(FerresError::Storage("y".into())));
    assert!(r.is_err());
    assert_eq!(cb.state(), CB_OPEN);
    assert_eq!(cb.failure_count(), 2);
    // a successful trial closes it
    let r = cb.call_at(120, || Ok::<u8, FerresError>(7));
    assert!(matches!(r, Ok(7)));
    assert_eq!(cb.state(), CB_CLOSED);
    assert_eq!(cb.failure_count(), 0);
    assert_ne!(CB_HALF_OPEN, CB_OPEN);
}

#[test]
fn circuit_breaker_defaults() {
    let cb = StorageCircuitBreaker::new();
    assert_eq!(cb.state(), CB_CLOSED);
    assert_eq!(cb.failure_count(), 0);
    let d = StorageCircuitBreaker::default();
    assert_eq!(d.state(), CB_CLOSED);
}

#[test]
fn md5_checksum_of_known_inputs() {
    assert_eq!(checksum_hex(b""), "d41d8cd98f00b204e9800998ecf8427e");
    assert_eq!(checksum_hex(b"abc"), "900150983cd24fb0d6963f7d28e17f72");
    assert!(checksum_matches(b"abc", "  900150983cd24fb0d6963f7d28e17f72\n"));
    assert!(!checksum_matches(b"abd", "900150983cd24fb0d6963f7d28e17f72"));
}

#[test]
fn points_body_roundtrip() {
    let serialized = vec![
        "{\"id\":\"a\"}".to_string(),
        "{\"id\":\"b\",\"text\":\"x\\ny\"}".to_string(),
    ];
    let body = DiskStorage::points_body(&serialized);
    assert_eq!(body, "{\"id\":\"a\"}\n{\"id\":\"b\",\"text\":\"x\\ny\"}\n");
    assert_eq!(DiskStorage::points_from_body(&body), serialized);
}

#[test]
fn points_from_body_skips_empty_lines_and_crlf() {
    let content = "first\r\n\n\r\nsecond\nthird";
    assert_eq!(
        DiskStorage::points_from_body(content),
        vec!["first".to_string(), "second".to_string(), "third".to_string()]
    );
    let numbered = FileStorage::point_lines(content);
    assert_eq!(
        numbered,
        vec![(1, "first".to_string()), (4, "second".to_string()), (5, "third".to_string())]
    );
    assert_eq!(jsonl_records(""), Vec::<(usize, String)>::new());
    assert_eq!(encode_jsonl(&Vec::new()), "");
}

#[test]
fn disk_storage_keeps_base_path() {
    let s = DiskStorage::new("/tmp/ferres-data");
    assert_eq!(s.base_path(), "/tmp/ferres-data");
}

#[test]
fn file_storage_checksum_roundtrip_and_corruption() {
    let serialized: Vec<String> = (0..100).map(|i| format!("{{\"id\":\"p{i}\"}}")).collect();
    let (body, sum) = FileStorage::points_file(&serialized);
    assert_eq!(sum, checksum_hex(body.as_bytes()));
    assert!(FileStorage::check_integrity("dir/points.jsonl", &body, &sum).is_ok());
    assert!(FileStorage::check_integrity("dir/points.jsonl", &body, &format!("{sum}\n")).is_ok());
    let corrupted = body.replace("p42", "p43");
    match FileStorage::check_integrity("dir/points.jsonl", &corrupted, &sum) {
        Err(FerresError::Storage(m)) => {
            let computed = checksum_hex(corrupted.as_bytes());
            assert_eq!(
                m,
                format!("integrity check failed for dir/points.jsonl: expected MD5 {sum}, got {computed}")
            );
        }
        _ => panic!("expected integrity failure"),
    }
    assert_eq!(DiskStorage::points_from_body(&body), serialized);
}

#[test]
fn corrupted_point_message_names_line_and_path() {
    match FileStorage::corrupted_point(12, "c/points.jsonl", "expected value") {
        FerresError::Storage(m) => {
            assert_eq!(m, "corrupted point at line 12 in c/points.jsonl: expected value")
        }
        _ => panic!("expected Storage"),
    }
}

#[test]
fn breaker_counts_failures_since_last_success_and_stays_consistent() {
    let mut cb = StorageCircuitBreaker::with_config(3, 10);
    let fail = || Err::<(), _>(FerresError::Storage("x".into()));
    cb.call_at(1, fail).ok();
    cb.call_at(2, fail).ok();
    assert_eq!((cb.state(), cb.failure_count()), (CB_CLOSED, 2));
    cb.call_at(3, || Ok::<(), FerresError>(())).unwrap();
    assert_eq!((cb.state(), cb.failure_count()), (CB_CLOSED, 0));
    for t in 4..7 {
        cb.call_at(t, fail).ok();
    }
    assert_eq!((cb.state(), cb.failure_count()), (CB_OPEN, 3));
    // rejected calls count nothing
    assert!(cb.call_at(7, fail).is_err());
    assert_eq!((cb.state(), cb.failure_count()), (CB_OPEN, 3));
    // a failed trial after the timeout counts and reopens
    cb.call_at(100, fail).ok();
    assert_eq!((cb.state(), cb.failure_count()), (CB_OPEN, 4));
    cb.call_at(200, || Ok::<(), FerresError>(())).unwrap();
    assert_eq!((cb.state(), cb.failure_count()), (CB_CLOSED, 0));
}
