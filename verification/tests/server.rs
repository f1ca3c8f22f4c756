use powerchecker::server::{parse_i32, port_setting, state_url, DEFAULT_SERVER_PORT};

#[test]
fn port_defaults_to_3000() {
    assert_eq!(port_setting(None), 3000);
    assert_eq!(port_setting(Some("")), DEFAULT_SERVER_PORT);
    assert_eq!(port_setting(Some("http")), 3000);
    assert_eq!(port_setting(Some("99999999999")), 3000);
}

#[test]
fn port_is_read_as_i32() {
    assert_eq!(port_setting(Some("8080")), 8080);
    assert_eq!(port_setting(Some("+8080")), 8080);
    assert_eq!(port_setting(Some("-1")), -1);
}

#[test]
fn i32_parsing_matches_std() {
    for s in [
        "0", "-0", "+0", "42", "-42", "+42", "2147483647", "-2147483648", "2147483648", "-2147483649",
        "", "+", "-", "+-1", "-+1", "1 ", " 1", "0x10", "007", "--1",
    ] {
        assert_eq!(parse_i32(s), s.parse::<i32>().ok(), "{s}");
    }
}

#[test]
fn home_assistant_state_address() {
    assert_eq!(
        state_url("http://host.docker.internal:8123", "sensor.smart_meter_power"),
        "http://host.docker.internal:8123/api/states/sensor.smart_meter_power"
    );
}
