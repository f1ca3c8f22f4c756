use powerchecker::serial::{frame_command, get_one_line_from_cmdbytes, parse_received_data, RxState, RxStep};

#[test]
fn splits_crlf_lines() {
    let lines = parse_received_data(b"EVENT 20 FE80\r\n\r\nOK\r\npartial");
    assert_eq!(lines, vec!["EVENT 20 FE80".to_string(), "OK".to_string()]);
}

#[test]
fn bare_line_feed_does_not_end_a_line() {
    assert_eq!(parse_received_data(b"A\nB\r\n"), vec!["A\nB".to_string()]);
    assert_eq!(parse_received_data(b"\n\r\n"), vec!["\n".to_string()]);
    assert!(parse_received_data(b"").is_empty());
}

#[test]
fn invalid_utf8_is_cut() {
    assert_eq!(get_one_line_from_cmdbytes(b"OK\xff\xfe"), "OK");
    assert_eq!(get_one_line_from_cmdbytes(b"\xffOK"), "");
    assert_eq!(get_one_line_from_cmdbytes("温度".as_bytes()), "温度");
    assert_eq!(parse_received_data(b"AB\xe6\x97\r\n"), vec!["AB".to_string()]);
}

#[test]
fn framed_command_reads_back() {
    let bytes = frame_command("SKSCAN 2 FFFFFFFF 6 0");
    assert_eq!(bytes, b"SKSCAN 2 FFFFFFFF 6 0\r\n".to_vec());
    assert_eq!(parse_received_data(&bytes), vec!["SKSCAN 2 FFFFFFFF 6 0".to_string()]);
}

#[test]
fn reader_completes_on_crlf() {
    let mut rx = RxState::new();
    assert!(matches!(rx.on_read(b"OK"), RxStep::Continue));
    assert_eq!(rx.attempts, 1);
    match rx.on_read(b"\r\n") {
        RxStep::Complete(lines) => assert_eq!(lines, vec!["OK".to_string()]),
        _ => panic!("expected a complete reply"),
    }
}

#[test]
fn reader_gives_up_after_many_reads() {
    let mut rx = RxState::new();
    for _ in 0..100 {
        assert!(matches!(rx.on_read(b"x"), RxStep::Continue));
    }
    assert!(matches!(rx.on_read(b"x"), RxStep::TooManyReads));
}

#[test]
fn reader_timeouts() {
    let mut rx = RxState::new();
    for retry in 1..=3 {
        assert!(matches!(rx.on_timeout(), RxStep::ResetThenRetry));
        assert_eq!(rx.retry, retry);
    }
    assert!(matches!(rx.on_timeout(), RxStep::TimedOut));

    let mut rx = RxState::new();
    rx.on_read(b"EVENT 25\r\nOK");
    match rx.on_timeout() {
        RxStep::ResetThenComplete(lines) => assert_eq!(lines, vec!["EVENT 25".to_string()]),
        _ => panic!("expected the partial reply"),
    }
}

#[test]
fn several_framed_lines_read_back() {
    let mut buf = Vec::new();
    for l in ["SKVER", "EVER 1.2.10", "OK"] {
        buf.extend_from_slice(&frame_command(l));
    }
    buf.extend_from_slice(b"EVENT 2");
    assert_eq!(parse_received_data(&buf), vec!["SKVER".to_string(), "EVER 1.2.10".to_string(), "OK".to_string()]);
}
