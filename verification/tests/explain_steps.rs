use ferres_db_core::explain::{explain_ranks, explain_search_limit};

#[test]
fn explain_limit_without_filter_is_the_limit() {
    assert_eq!(explain_search_limit(5, false, 100), 5);
    assert_eq!(explain_search_limit(5, false, 0), 5);
}

#[test]
fn explain_limit_with_filter_widens_within_the_collection() {
    assert_eq!(explain_search_limit(5, true, 100), 50);
    assert_eq!(explain_search_limit(5, true, 20), 20);
    assert_eq!(explain_search_limit(5, true, 2), 5);
    assert_eq!(explain_search_limit(usize::MAX, true, 0), usize::MAX);
    assert_eq!(explain_search_limit(usize::MAX / 2, true, usize::MAX), usize::MAX);
}

#[test]
fn explain_ranks_skip_unresolved_and_zero_failed() {
    let (ranks, passed) = explain_ranks(&vec![Some(true), None, Some(false), Some(true)]);
    assert_eq!(ranks, vec![(1, 1), (3, 0), (4, 2)]);
    assert_eq!(passed, 2);
}

#[test]
fn explain_ranks_without_filter_count_every_found_point() {
    let (ranks, passed) = explain_ranks(&vec![Some(true), Some(true), Some(true)]);
    assert_eq!(ranks, vec![(1, 1), (2, 2), (3, 3)]);
    assert_eq!(passed, 3);
    let (none, zero) = explain_ranks(&vec![]);
    assert!(none.is_empty());
    assert_eq!(zero, 0);
}
