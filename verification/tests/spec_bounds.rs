//! Bounds of numeric settings.

use rmr::endpoint::spec::bounds::check_u64_range;
use rmr::endpoint::spec::SpecError;

#[test]
fn u64_in_range_passes_through() {
    assert_eq!(check_u64_range(500, "ms", 100, 1000).unwrap(), 500);
}

#[test]
fn u64_below_min_rejected_with_bounds_in_reason() {
    let err = check_u64_range(99, "ms", 100, 1000).unwrap_err();
    match err {
        SpecError::InvalidQueryValue { key, reason } => {
            assert_eq!(key, "ms");
            assert!(reason.contains("100..=1000"), "reason was: {reason}");
            assert!(reason.contains("got 99"), "reason was: {reason}");
        }
        other => panic!("wrong variant: {other:?}"),
    }
}

#[test]
fn u64_above_max_rejected_with_bounds_in_reason() {
    let err = check_u64_range(1001, "ms", 100, 1000).unwrap_err();
    match err {
        SpecError::InvalidQueryValue { key, reason } => {
            assert_eq!(key, "ms");
            assert!(reason.contains("100..=1000"), "reason was: {reason}");
            assert!(reason.contains("got 1001"), "reason was: {reason}");
        }
        other => panic!("wrong variant: {other:?}"),
    }
}
