use powerchecker::bp35c2::{
    check_power_a_units, echonet_frame, init_commands, join_command, meter_setup_commands, SCAN_COMMAND, erxudp_complete, scan_lines_ok, erxudp_a_outcome, erxudp_reply_for, erxudp_w_outcome, extract_power_a_units,
    extract_power_w_from_udp, extract_str, has_event25, has_ok_line, parse_erxudp, retry_elapsed, scan_event20_lines,
    split_words, wait_resp_command_ok, wait_resp_event20, ErrorKind, MeterInfo, GET_POWER_A, GET_POWER_W,
};

fn lines(v: &[&str]) -> Vec<String> {
    v.iter().map(|s| s.to_string()).collect()
}

fn empty_info() -> MeterInfo {
    MeterInfo {
        channel: String::new(),
        pan_id: String::new(),
        meter_mac_addr: String::new(),
        meter_ip6_addr: String::new(),
        event20: false,
        event22: false,
    }
}

const POWER_REPLY: &str = "ERXUDP FE80:0000:0000:0000:021C:6400:030C:3A8B FE80:0000:0000:0000:021D:1290:1234:5678 0E1A 0E1A 001C6400030C3A8B 1 0 0012 1081000102880105FF017201E704000001F4";
const CURRENT_REPLY: &str = "ERXUDP FE80:0000:0000:0000:021C:6400:030C:3A8B FE80:0000:0000:0000:021D:1290:1234:5678 0E1A 0E1A 001C6400030C3A8B 1 0 0012 1081000102880105FF017201E80400320014";

#[test]
fn scan_reply_fills_meter_info() {
    let resp = lines(&[
        "EVENT 20 FE80:0000:0000:0000:021C:6400:030C:3A8B 0",
        "EPANDESC",
        "  Channel:21",
        "  Channel Page:09",
        "  Pan ID:8888",
        "  Addr:001C6400030C3A8B",
        "  LQI:E1",
        "EVENT 22 FE80:0000:0000:0000:021D:1290:1234:5678 0",
    ]);
    let info = scan_event20_lines(&resp, empty_info());
    assert_eq!(info.channel, "21");
    assert_eq!(info.pan_id, "8888");
    assert_eq!(info.meter_mac_addr, "001C6400030C3A8B");
    assert!(info.event20);
    assert!(info.event22);
}

#[test]
fn scan_reply_keeps_what_it_does_not_name() {
    let mut before = empty_info();
    before.channel = "33".to_string();
    let info = wait_resp_event20(&lines(&["EVENT 21 X", "  Pan ID:ABCD"]), &mut before);
    assert_eq!(info.channel, "33");
    assert_eq!(info.pan_id, "ABCD");
    assert!(!info.event20);
    assert_eq!(before.channel, "33");
    assert_eq!(before.pan_id, "");
}

#[test]
fn command_ok() {
    assert_eq!(wait_resp_command_ok(&lines(&["SKVER", "EVER 1.2.8", "OK"])), Ok(()));
    assert_eq!(wait_resp_command_ok(&lines(&["OK", "FAIL ER04"])), Err(ErrorKind::InvalidData));
    assert!(has_ok_line(&lines(&["SKVER", "OK", "x"])));
    assert!(!has_ok_line(&lines(&["OKAY"])));
    assert!(has_event25(&lines(&["EVENT 25 FE80::1 0"])));
    assert!(!has_event25(&lines(&["EVENT 24 FE80::1 0"])));
}

#[test]
fn words_of_a_line() {
    assert_eq!(split_words(&"  a  bc d ".to_string()), lines(&["a", "bc", "d"]));
    assert!(split_words(&"   ".to_string()).is_empty());
}

#[test]
fn erxudp_parameters() {
    let params = parse_erxudp(&lines(&["EVENT 21", POWER_REPLY])).unwrap();
    assert_eq!(params.len(), 10);
    assert_eq!(params[0], "ERXUDP");
    assert_eq!(params[9], "1081000102880105FF017201E704000001F4");
    assert_eq!(parse_erxudp(&lines(&["OK"])), Err(()));
}

#[test]
fn substring_by_char_positions() {
    assert_eq!(extract_str("0123456789", 2, 4), "234");
    assert_eq!(extract_str("0123", 2, 10), "23");
    assert_eq!(extract_str("0123", 5, 10), "");
    assert_eq!(extract_str("0123", 3, 1), "");
}

#[test]
fn power_from_payload() {
    assert_eq!(extract_power_w_from_udp("1081000102880105FF017201E704000001F4"), Ok(500));
    assert_eq!(extract_power_w_from_udp("1081000102880105FF017201E70400000000"), Err(ErrorKind::InvalidData));
    assert_eq!(extract_power_w_from_udp("1081000102880105FF017201E70400002710"), Err(ErrorKind::InvalidData));
    assert_eq!(extract_power_w_from_udp("1081000102880105FF017201E704000ZZZZZ"), Err(ErrorKind::InvalidData));
}

#[test]
fn currents_from_payload() {
    assert_eq!(extract_power_a_units("1081000102880105FF017201E80400320014"), Ok(70));
    assert_eq!(extract_power_a_units("1081000102880105FF017201E804XXXX0014"), Ok(20));
    assert_eq!(extract_power_a_units("1081000102880105FF017201E80400000000"), Err(ErrorKind::InvalidData));
    assert_eq!(check_power_a_units(1999), Ok(1999));
    assert_eq!(check_power_a_units(2000), Err(ErrorKind::InvalidData));
}

#[test]
fn waiting_outcomes() {
    assert_eq!(erxudp_w_outcome(&lines(&["EVENT 21"])), None);
    assert_eq!(erxudp_w_outcome(&lines(&[POWER_REPLY])), Some(Ok(500)));
    assert_eq!(erxudp_a_outcome(&lines(&[CURRENT_REPLY])), Some(70));
    assert_eq!(
        erxudp_reply_for(&lines(&[POWER_REPLY]), &GET_POWER_W),
        Some("1081000102880105FF017201E704000001F4".to_string())
    );
    assert_eq!(erxudp_reply_for(&lines(&[POWER_REPLY]), &GET_POWER_A), None);
    assert!(!retry_elapsed(5, 10_000));
    assert!(retry_elapsed(6, 10_000));
}

#[test]
fn sendto_frame() {
    let frame = echonet_frame("FE80::1", &GET_POWER_W);
    let mut expected = b"SKSENDTO 1 FE80::1 0E1A 1 0 000E ".to_vec();
    expected.extend_from_slice(&GET_POWER_W);
    assert_eq!(frame, expected);
}

#[test]
fn scan_lines_checked_before_reading() {
    assert!(scan_lines_ok(&lines(&["EVENT 20 FE80:0000", "  Channel:21", "  Pan ID:8A3C", "  Addr:00112233445566AA"])));
    assert!(scan_lines_ok(&lines(&[])));
    assert!(!scan_lines_ok(&lines(&["  Channel:2"])));
    assert!(!scan_lines_ok(&lines(&["Channel:21"])));
    assert!(!scan_lines_ok(&lines(&["OK", "  Pan ID:8a3c"])));
    assert!(!scan_lines_ok(&lines(&["  Addr:0011"])));
}

#[test]
fn erxudp_lines_checked_before_reading() {
    assert!(erxudp_complete(&lines(&["OK", "EVENT 21"])));
    assert!(!erxudp_complete(&lines(&["ERXUDP FE80 FE80 0E1A 0E1A 0011 1 0 0012"])));
    assert!(erxudp_complete(&lines(&["ERXUDP a b c d e f g h 1081000102880105FF017201E704000001F4"])));
}

#[test]
fn module_commands() {
    assert_eq!(
        init_commands("0000ABCD", "PASSWORD1234"),
        ["SKRESET", "SKVER", "SKINFO", "SKAPPVER", "SKSETRBID 0000ABCD", "SKSETPWD c PASSWORD1234"]
    );
    assert_eq!(SCAN_COMMAND, "SKSCAN 2 FFFFFFFF 6 0");
    let mut info = empty_info();
    info.channel = "21".to_string();
    info.pan_id = "8A3C".to_string();
    info.meter_mac_addr = "00112233445566AA".to_string();
    info.meter_ip6_addr = "FE80:0000:0000:0000:0211:2233:4455:66AA".to_string();
    assert_eq!(meter_setup_commands(&info), ["SKSREG S2 21", "SKSREG S3 8A3C", "SKLL64 00112233445566AA"]);
    assert_eq!(join_command(&info), "SKJOIN FE80:0000:0000:0000:0211:2233:4455:66AA");
}
