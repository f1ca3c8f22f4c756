use powerchecker::auth::{generate_auth_headers, meter_status_url, sign_request};

#[test]
fn signature_matches_known_vector() {
    let sign = sign_request("token", "secret", "1700000000000", "nonce");
    assert_eq!(sign, "Ho/pm1Q6hyf9kroxzCu/cSBo7lGKad4tesq6eb2CpUg=");
}

#[test]
fn signature_depends_on_every_part() {
    let base = sign_request("token", "secret", "1700000000000", "nonce");
    assert_ne!(sign_request("tokem", "secret", "1700000000000", "nonce"), base);
    assert_ne!(sign_request("token", "secreu", "1700000000000", "nonce"), base);
    assert_ne!(sign_request("token", "secret", "1700000000001", "nonce"), base);
    assert_ne!(sign_request("token", "secret", "1700000000000", "noncf"), base);
}

#[test]
fn signature_is_44_base64_chars() {
    let sign = sign_request("", "", "", "");
    assert_eq!(sign.len(), 44);
    assert!(sign.ends_with('='));
}

#[test]
fn auth_headers_have_expected_shape() {
    let (t, nonce, sign) = generate_auth_headers("token", "secret").unwrap();
    assert!(!t.is_empty());
    assert!(t.chars().all(|c| c.is_ascii_digit()));
    assert_eq!(nonce.len(), 36);
    assert_eq!(nonce.as_bytes()[14], b'4');
    for i in [8usize, 13, 18, 23] {
        assert_eq!(nonce.as_bytes()[i], b'-');
    }
    assert_eq!(sign.len(), 44);
    assert_eq!(sign, sign_request("token", "secret", &t, &nonce));
}

#[test]
fn auth_headers_use_fresh_nonces() {
    let (_, n1, _) = generate_auth_headers("token", "secret").unwrap();
    let (_, n2, _) = generate_auth_headers("token", "secret").unwrap();
    assert_ne!(n1, n2);
}

#[test]
fn meter_status_address() {
    assert_eq!(
        meter_status_url("C0FFEE123456"),
        "https://api.switch-bot.com/v1.1/devices/C0FFEE123456/status"
    );
}
