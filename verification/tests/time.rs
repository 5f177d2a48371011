use mcpg_cluster_api::time::MAX_DURATION_NANOS;
use mcpg_cluster_api::Duration;

#[test]
fn durations_count_nanoseconds() {
    assert_eq!(Duration::from_millis(50).as_nanos(), 50_000_000);
    assert_eq!(Duration::from_secs(60).as_nanos(), 60_000_000_000);
    assert_eq!(Duration::from_millis(50).plus(Duration::from_millis(120)).as_nanos(), 170_000_000);
    assert_eq!(Duration::from_secs(1).times(3).as_nanos(), 3_000_000_000);
    assert_eq!(Duration::from_nanos(7).unwrap().divided_by(2).as_nanos(), 3);
}

#[test]
fn durations_cover_the_range_of_the_standard_library() {
    assert_eq!(MAX_DURATION_NANOS, std::time::Duration::MAX.as_nanos());
    assert_eq!(Duration::from_nanos(MAX_DURATION_NANOS).unwrap().as_nanos(), MAX_DURATION_NANOS);
    assert!(Duration::from_nanos(MAX_DURATION_NANOS + 1).is_none());
    assert_eq!(
        Duration::from_secs(u64::MAX).as_nanos(),
        std::time::Duration::from_secs(u64::MAX).as_nanos()
    );
}
