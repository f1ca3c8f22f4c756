use powerchecker::net::{
    check_wifi_credentials, decimal2_panics, extract_json, local_port, ntp_reply_to_jst, ntp_request, parse_authority,
    parse_decimal2, parse_ipv4, power_from_fields, template_request, NetworkError,
};

#[test]
fn authority_with_port() {
    assert_eq!(parse_authority("http://192.168.1.10:8123/api"), Ok(("192.168.1.10", 8123)));
    assert_eq!(parse_authority("http://192.168.1.10:8123"), Ok(("192.168.1.10", 8123)));
}

#[test]
fn authority_defaults_to_port_80() {
    assert_eq!(parse_authority("http://10.0.0.2/api/template"), Ok(("10.0.0.2", 80)));
    assert_eq!(parse_authority("http://host"), Ok(("host", 80)));
}

#[test]
fn authority_errors() {
    assert_eq!(parse_authority("https://10.0.0.2/"), Err(NetworkError::BadUrl));
    assert_eq!(parse_authority("http://10.0.0.2:70000/"), Err(NetworkError::BadUrl));
    assert_eq!(parse_authority("http://10.0.0.2:/"), Err(NetworkError::BadUrl));
    assert_eq!(parse_authority("http://10.0.0.2:x1/"), Err(NetworkError::BadUrl));
}

#[test]
fn decimal2_examples() {
    assert_eq!(parse_decimal2("3.24"), Ok(324));
    assert_eq!(parse_decimal2("5"), Ok(500));
    assert_eq!(parse_decimal2("6.5"), Ok(650));
    assert_eq!(parse_decimal2("2."), Ok(200));
    assert_eq!(parse_decimal2("1.239"), Ok(123));
    assert_eq!(parse_decimal2("+1.05"), Ok(105));
}

#[test]
fn decimal2_errors() {
    assert_eq!(parse_decimal2("unknown"), Err(NetworkError::Parse));
    assert_eq!(parse_decimal2(".5"), Err(NetworkError::Parse));
    assert_eq!(parse_decimal2("1.x"), Err(NetworkError::Parse));
    assert_eq!(parse_decimal2("1.é"), Err(NetworkError::Parse));
    assert_eq!(parse_decimal2(""), Err(NetworkError::Parse));
}

#[test]
fn template_fields() {
    assert_eq!(power_from_fields(" 1500 ", "6.5\n"), Ok((1500, 650)));
    assert_eq!(power_from_fields("unknown", "6.5"), Err(NetworkError::Parse));
    assert_eq!(power_from_fields("350", "unavailable"), Err(NetworkError::Parse));
}

#[test]
fn json_in_reply() {
    let reply = b"HTTP/1.1 200 OK\r\nContent-Type: text/plain\r\n\r\n2a\r\n{\"power_w\": \"350\", \"power_a\": \"1.5\"}\r\n0\r\n\r\n";
    assert_eq!(extract_json(reply).unwrap(), "{\"power_w\": \"350\", \"power_a\": \"1.5\"}");
    assert_eq!(extract_json(b"{\"a\": 1"), Ok("{\"a\": 1".to_string()));
}

#[test]
fn json_errors() {
    assert_eq!(extract_json(b""), Err(NetworkError::NoData));
    assert_eq!(extract_json(b"HTTP/1.1 500\r\n\r\n"), Err(NetworkError::Parse));
    assert_eq!(extract_json(&[0x7b, 0xff, 0x7d]), Err(NetworkError::Parse));
}

#[test]
fn request_text() {
    let req = template_request("10.0.0.2", "abc", "{\"template\": \"x\"}");
    assert_eq!(
        req,
        "POST /api/template HTTP/1.1\r\nHost: 10.0.0.2\r\nAuthorization: Bearer abc\r\nContent-Type: application/json\r\nContent-Length: 17\r\nConnection: close\r\n\r\n{\"template\": \"x\"}"
    );
}

#[test]
fn local_ports_are_dynamic() {
    assert_eq!(local_port(0), 49152);
    assert_eq!(local_port(16384 + 5), 49157);
    assert_eq!(local_port(u64::MAX), 49152 + 16383);
}

#[test]
fn wifi_credential_lengths() {
    assert_eq!(check_wifi_credentials("home", "secret"), Ok(()));
    assert_eq!(check_wifi_credentials(&"s".repeat(33), "p"), Err(NetworkError::Config));
    assert_eq!(check_wifi_credentials("s", &"p".repeat(65)), Err(NetworkError::Config));
    assert_eq!(check_wifi_credentials(&"s".repeat(32), &"p".repeat(64)), Ok(()));
}

#[test]
fn ntp_packets() {
    let pkt = ntp_request();
    assert_eq!(pkt[0], 0x23);
    assert!(pkt[1..].iter().all(|&b| b == 0));

    let mut resp = [0u8; 48];
    // 2023-11-14 22:13:20 UTC is 1700000000 Unix seconds.
    let ntp = 1_700_000_000u32.wrapping_add(2_208_988_800);
    resp[40..44].copy_from_slice(&ntp.to_be_bytes());
    assert_eq!(ntp_reply_to_jst(&resp), 1_700_000_000 + 32_400);

    // A time before 1970 counts as 1970.
    let early = [0u8; 48];
    assert_eq!(ntp_reply_to_jst(&early), 32_400);
}

#[test]
fn ipv4_addresses() {
    assert_eq!(parse_ipv4("192.168.1.10"), Ok([192, 168, 1, 10]));
    assert_eq!(parse_ipv4("0.0.0.0"), Ok([0, 0, 0, 0]));
    assert_eq!(parse_ipv4("255.255.255.255"), Ok([255, 255, 255, 255]));
}

#[test]
fn ipv4_refusals() {
    for bad in [
        "", "host.docker.internal", "1.2.3", "1.2.3.4.5", "256.1.1.1", "01.2.3.4", "1..2.3",
        "1.2.3.4.", ".1.2.3", "+1.2.3.4", "1.2.3.-4", "1234.1.1.1", " 1.2.3.4",
    ] {
        assert_eq!(parse_ipv4(bad), Err(NetworkError::Dns), "{bad}");
    }
    assert_eq!(parse_ipv4("10.0.0.2"), Ok([10, 0, 0, 2]));
    assert_eq!(parse_ipv4("100.64.0.0"), Ok([100, 64, 0, 0]));
}

#[test]
fn decimal2_panic_inputs() {
    assert!(!decimal2_panics("3.24"));
    assert!(!decimal2_panics("unknown"));
    assert!(!decimal2_panics("42949672"));
    assert!(decimal2_panics("42949673"));
    assert!(decimal2_panics("42949672.96"));
    assert!(!decimal2_panics("42949672.95"));
    assert!(decimal2_panics("3.2\u{20ac}"));
    assert!(decimal2_panics("3.\u{20ac}"));
    assert!(!decimal2_panics("3.\u{e9}"));
    assert!(!decimal2_panics("x.\u{20ac}"));
}
