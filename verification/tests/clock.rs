use powerchecker::clock::{current_time_at, epoch_to_parts, DOW_STR};

#[test]
fn unix_epoch_is_thursday_first_of_january_1970() {
    assert_eq!(epoch_to_parts(0), (1970, 1, 1, 0, 0, 0, 4));
    assert_eq!(DOW_STR[4], "Thu");
}

#[test]
fn known_timestamps() {
    assert_eq!(epoch_to_parts(1_700_000_000), (2023, 11, 14, 22, 13, 20, 2));
    assert_eq!(epoch_to_parts(1_700_000_000 + 9 * 3600), (2023, 11, 15, 7, 13, 20, 3));
    assert_eq!(epoch_to_parts(i32::MAX), (2038, 1, 19, 3, 14, 7, 2));
}

#[test]
fn leap_days() {
    assert_eq!(epoch_to_parts(951_782_400), (2000, 2, 29, 0, 0, 0, 2));
    assert_eq!(epoch_to_parts(68_169_600), (1972, 2, 29, 0, 0, 0, 2));
}

#[test]
fn times_before_1970_count_back() {
    assert_eq!(epoch_to_parts(-1), (1969, 12, 31, 23, 59, 59, 3));
    assert_eq!(epoch_to_parts(-86_400), (1969, 12, 31, 0, 0, 0, 3));
    assert_eq!(epoch_to_parts(-86_401), (1969, 12, 30, 23, 59, 59, 2));
    assert_eq!(epoch_to_parts(i32::MIN), (1901, 12, 13, 20, 45, 52, 5));
}

#[test]
fn clock_before_sync_shows_2000() {
    assert_eq!(current_time_at(0, 5_000, 99_000), (2000, 1, 1, 0, 0, 0, 0));
}

#[test]
fn clock_advances_from_sync() {
    let base = 1_700_000_000;
    assert_eq!(current_time_at(base, 10_000, 12_999), epoch_to_parts(base + 2));
    // A millisecond counter behind the sync point adds nothing.
    assert_eq!(current_time_at(base, 10_000, 9_000), epoch_to_parts(base));
}

#[test]
fn a_day_later_is_the_next_date() {
    assert_eq!(epoch_to_parts(1_703_980_800), (2023, 12, 31, 0, 0, 0, 0));
    assert_eq!(epoch_to_parts(1_703_980_800 + 86_400), (2024, 1, 1, 0, 0, 0, 1));
    assert_eq!(epoch_to_parts(1_709_164_800), (2024, 2, 29, 0, 0, 0, 4));
    assert_eq!(epoch_to_parts(1_709_164_800 + 86_400), (2024, 3, 1, 0, 0, 0, 5));
}
