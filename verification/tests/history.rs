use powerchecker::history::{now_secs, resolve_range, resolve_range_at, HistoryRange};

#[test]
fn default_range_is_24h_at_1min() {
    let range = resolve_range(None, Some(1_000_000), None).unwrap();
    assert_eq!(range.to, 1_000_000);
    assert_eq!(range.from, 1_000_000 - 24 * 3600);
    assert_eq!(range.step, 60);
}

#[test]
fn week_range_uses_5min_step() {
    let to = 2_000_000;
    let from = to - 7 * 24 * 3600;
    let range = resolve_range(Some(from), Some(to), None).unwrap();
    assert_eq!(range.step, 300);
}

#[test]
fn rejects_inverted_range() {
    assert!(resolve_range(Some(100), Some(50), None).is_err());
}

#[test]
fn inverted_range_message() {
    let err = resolve_range(Some(100), Some(100), None).unwrap_err();
    assert_eq!(err, "from must be less than to");
}

#[test]
fn month_range_uses_hourly_step() {
    let to = 10_000_000;
    let range = resolve_range(Some(to - 30 * 24 * 3600), Some(to), None).unwrap();
    assert_eq!(range.step, 3600);
}

#[test]
fn rejects_range_over_90_days() {
    let to = 100_000_000;
    let err = resolve_range(Some(to - 90 * 24 * 3600 - 1), Some(to), None).unwrap_err();
    assert_eq!(err, "range exceeds 90 days");
    assert!(resolve_range(Some(to - 90 * 24 * 3600), Some(to), None).is_ok());
}

#[test]
fn rejects_range_whose_length_overflows() {
    let err = resolve_range(Some(i64::MIN), Some(i64::MAX), None).unwrap_err();
    assert_eq!(err, "range exceeds 90 days");
}

#[test]
fn rejects_step_below_a_minute() {
    let err = resolve_range(Some(0), Some(3600), Some(59)).unwrap_err();
    assert_eq!(err, "step must be at least 60 seconds");
}

#[test]
fn widens_step_to_cap_points() {
    // 90 days at one-minute steps would be 129600 points; the step becomes ceil(7776000 / 2500).
    let range = resolve_range_at(Some(0), 7_776_000, Some(60)).unwrap();
    assert_eq!(range, HistoryRange { from: 0, to: 7_776_000, step: 3111 });
    assert!((range.to - range.from) / range.step <= 2500);
}

#[test]
fn explicit_step_kept_when_points_fit() {
    let range = resolve_range_at(Some(0), 3600, Some(120)).unwrap();
    assert_eq!(range, HistoryRange { from: 0, to: 3600, step: 120 });
}

#[test]
fn missing_end_means_now() {
    let before = now_secs().unwrap();
    let range = resolve_range(None, None, None).unwrap();
    let after = now_secs().unwrap();
    assert!(before <= range.to && range.to <= after);
    assert_eq!(range.to - range.from, 24 * 3600);
    assert_eq!(range.step, 60);
}
