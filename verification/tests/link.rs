use powerchecker::link::{
    ntp_reply_complete, send_step, wait_step, Deadline, RecvStep, ReplyBuffer, WaitStep, HTTP_REPLY_CAP,
    WIFI_ASSOC_TIMEOUT_MS,
};
use powerchecker::net::NetworkError;

#[test]
fn waits_end_at_the_deadline() {
    let d = Deadline::after(1_000, WIFI_ASSOC_TIMEOUT_MS);
    assert_eq!(d.at_ms, 9_000);
    assert_eq!(wait_step(false, 9_000, d), WaitStep::Wait);
    assert_eq!(wait_step(false, 9_001, d), WaitStep::TimedOut);
    assert_eq!(wait_step(true, 20_000, d), WaitStep::Done);
}

#[test]
fn sending_stops_when_all_bytes_went() {
    let d = Deadline::after(0, 15_000);
    assert_eq!(send_step(10, 10, 99_999, d), WaitStep::Done);
    assert_eq!(send_step(4, 10, 15_000, d), WaitStep::Wait);
    assert_eq!(send_step(4, 10, 15_001, d), WaitStep::TimedOut);
}

#[test]
fn reply_buffer_is_capped() {
    let mut b = ReplyBuffer::new();
    assert_eq!(b.outcome(), Err(NetworkError::NoData));
    assert_eq!(b.on_data(500), RecvStep::Continue);
    assert_eq!(b.room(), 12);
    assert_eq!(b.on_data(12), RecvStep::Stop);
    assert_eq!(b.len, HTTP_REPLY_CAP);
    assert_eq!(b.outcome(), Ok(512));
    assert_eq!(b.on_idle(false), RecvStep::Stop);
    assert_eq!(b.on_idle(true), RecvStep::Continue);
    assert_eq!(b.on_clock(15_001, Deadline::after(0, 15_000)), RecvStep::Stop);
}

#[test]
fn ntp_reply_needs_a_whole_packet() {
    assert!(!ntp_reply_complete(47));
    assert!(ntp_reply_complete(48));
}
