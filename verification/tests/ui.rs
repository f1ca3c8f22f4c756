use powerchecker::bmp::ImageCatalog;
use powerchecker::net::parse_decimal2;
use powerchecker::ui::{
    fetch_due, format_amps, format_date, format_hhmm, format_hhmmss, key_edge, ntp_due, photo_label,
    photo_next, photo_prev, status_msg, two_digits, uptime_clock, wifi_retry_due, FetchAction, KeyEdge,
    Link, Schedule, ScreenState, MODE_CLOCK, MODE_PHOTO, MODE_POWER,
};
use powerchecker::power::PowerLevel;

#[test]
fn amps_are_written_with_two_decimals() {
    assert_eq!(format_amps(324), "3.24");
    assert_eq!(format_amps(5), "0.05");
    assert_eq!(format_amps(1000), "10.00");
    assert_eq!(format_amps(0), "0.00");
}

#[test]
fn amps_text_reads_back() {
    for ca in [0u32, 5, 99, 100, 324, 1000, 12345, 4_000_000_000] {
        assert_eq!(parse_decimal2(&format_amps(ca)), Ok(ca));
    }
}

#[test]
fn times_are_zero_padded() {
    assert_eq!(two_digits(7), "07");
    assert_eq!(two_digits(42), "42");
    assert_eq!(two_digits(123), "123");
    assert_eq!(format_hhmm(9, 5), "09:05");
    assert_eq!(format_hhmmss(23, 59, 0), "23:59:00");
}

#[test]
fn photo_navigation_wraps() {
    assert_eq!(photo_next(0, 3), 1);
    assert_eq!(photo_next(2, 3), 0);
    assert_eq!(photo_prev(0, 3), 2);
    assert_eq!(photo_prev(2, 3), 1);
    for i in 0..5usize {
        assert_eq!(photo_prev(photo_next(i, 5), 5), i);
        assert_eq!(photo_next(photo_prev(i, 5), 5), i);
    }
}

#[test]
fn fetch_and_sync_schedules() {
    assert!(fetch_due(true, 10, 10));
    assert!(!fetch_due(false, 29_999, 0));
    assert!(fetch_due(false, 30_000, 0));
    assert!(ntp_due(5, 0, 0));
    assert!(!ntp_due(3_600_000, 1_000, 0));
    assert!(ntp_due(3_601_000, 1_000, 0));
    assert!(!ntp_due(3_601_000, 1_000, 3_590_000));
    assert!(!wifi_retry_due(14_999, 0));
    assert!(wifi_retry_due(15_000, 0));
}

#[test]
fn key_edges() {
    assert_eq!(key_edge(false, true), KeyEdge::Pressed);
    assert_eq!(key_edge(true, false), KeyEdge::Released);
    assert_eq!(key_edge(true, true), KeyEdge::Unchanged);
    assert_eq!(key_edge(false, false), KeyEdge::Unchanged);
}

#[test]
fn status_and_labels() {
    assert_eq!(status_msg(false, true), "No WiFi");
    assert_eq!(status_msg(true, false), "Fetching...");
    assert_eq!(status_msg(true, true), "OK");
    assert_eq!(photo_label(true, 12), "12 images");
    assert_eq!(photo_label(true, 0), "No BMP in /img");
    assert_eq!(photo_label(false, 3), "No SD");
}

#[test]
fn uptime_clock_parts() {
    assert_eq!(uptime_clock(0), (0, 0, 0));
    assert_eq!(uptime_clock(3_723_000), (1, 2, 3));
    assert_eq!(uptime_clock(256 * 3_600_000 + 61_000), (0, 1, 1));
}

#[test]
fn screen_state_follows_mode_changes() {
    let mut s = ScreenState::new();
    assert_eq!(s.prev_mode, MODE_POWER);
    assert!(s.power_image_wanted(PowerLevel::Low));
    s.power_img_level = Some(PowerLevel::Low);
    assert!(!s.power_image_wanted(PowerLevel::Low));
    assert!(s.power_image_wanted(PowerLevel::High));

    s.on_mode(MODE_PHOTO, true);
    assert_eq!(s.prev_mode, MODE_PHOTO);
    assert!(s.photo_needs_draw);
    s.photo_on_screen = true;

    s.on_mode(MODE_CLOCK, true);
    assert!(!s.photo_on_screen);
    assert_eq!(s.power_img_level, Some(PowerLevel::Low));

    s.on_mode(MODE_POWER, true);
    assert_eq!(s.power_img_level, None);

    let before = s;
    s.on_mode(MODE_POWER, false);
    assert_eq!(s, before);
}

#[test]
fn screen_state_navigation() {
    let mut s = ScreenState::new();
    s.navigate(0, true, false);
    assert_eq!(s, ScreenState::new());
    s.navigate(3, false, true);
    assert_eq!(s.photo_idx, 2);
    assert!(s.photo_needs_draw);
    s.navigate(3, true, false);
    assert_eq!(s.photo_idx, 0);
}

#[test]
fn dates_are_zero_padded() {
    assert_eq!(format_date(2024, 3, 9), "2024/03/09");
    assert_eq!(format_date(987, 12, 31), "0987/12/31");
    assert_eq!(format_date(12345, 1, 1), "12345/01/01");
    assert_eq!(format_date(-1, 1, 1), format!("{:04}/{:02}/{:02}", -1, 1, 1));
    assert_eq!(format_date(i32::MIN, 1, 1), format!("{:04}/{:02}/{:02}", i32::MIN, 1, 1));
}

#[test]
fn photo_drawing_decisions() {
    let mut s = ScreenState::new();
    assert!(!s.photo_draw_wanted(MODE_PHOTO));
    s.on_mode(MODE_PHOTO, true);
    assert!(s.photo_draw_wanted(MODE_PHOTO));
    assert!(!s.photo_draw_wanted(MODE_CLOCK));
    s.on_photo_attempt(false);
    assert!(!s.photo_needs_draw);
    assert!(!s.photo_on_screen);
    s.navigate(2, true, false);
    s.on_photo_attempt(true);
    assert!(s.photo_on_screen);
    s.on_power_image_drawn(PowerLevel::Mid);
    assert_eq!(s.power_img_level, Some(PowerLevel::Mid));
}

#[test]
fn schedule_fetches_every_30_s() {
    let mut sch = Schedule::new();
    assert_eq!(sch.plan_fetch(1_000, false, Link::Ready), FetchAction::Idle);
    assert_eq!(sch.plan_fetch(30_000, false, Link::Ready), FetchAction::FetchPower);
    assert_eq!(sch.last_fetch_ms, 30_000);
    assert_eq!(sch.plan_fetch(59_999, false, Link::Ready), FetchAction::Idle);
    assert_eq!(sch.plan_fetch(59_999, true, Link::NoAddress), FetchAction::Reconnect);
    assert_eq!(sch.last_fetch_ms, 59_999);
}

#[test]
fn schedule_reports_missing_wifi_every_15_s() {
    let mut sch = Schedule::new();
    assert_eq!(sch.plan_fetch(30_000, false, Link::Absent), FetchAction::ReportNoWifi);
    assert_eq!(sch.last_wifi_retry_ms, 30_000);
    assert_eq!(sch.plan_fetch(40_000, true, Link::Absent), FetchAction::Idle);
    assert_eq!(sch.last_fetch_ms, 40_000);
    assert_eq!(sch.plan_fetch(45_000, true, Link::Absent), FetchAction::ReportNoWifi);
}

#[test]
fn schedule_syncs_clock_hourly() {
    let mut sch = Schedule::new();
    assert!(!sch.plan_ntp(5, false));
    assert!(sch.plan_ntp(5, true));
    assert_eq!(sch.last_ntp_attempt_ms, 5);
    assert!(!sch.plan_ntp(20_000, true));
    assert!(sch.plan_ntp(35_005, true));
    sch.on_ntp_synced(35_005);
    assert!(!sch.plan_ntp(3_600_000, true));
    assert!(sch.plan_ntp(3_635_005, true));
}

#[test]
fn power_images_take_turns() {
    let mut c = ImageCatalog::new();
    c.set_power_files(PowerLevel::Mid, vec!["A.BMP".to_string(), "B.BMP".to_string(), "C.BMP".to_string()]);
    let seen: Vec<String> = (0..6).map(|_| c.next_power_image(PowerLevel::Mid).unwrap()).collect();
    assert_eq!(seen, ["A.BMP", "B.BMP", "C.BMP", "A.BMP", "B.BMP", "C.BMP"]);
}
