//! Requests to the SwitchBot cloud API v1.1: the device address and the
//! signature `sign = Base64(HMAC-SHA256(secret, token + t + nonce))`.

use vstd::prelude::*;
use vstd::string::StringSliceAdditionalSpecFns;
use hmac::Mac;
use base64::Engine;

verus! {

broadcast use vstd::string::group_string_axioms;

// ── Outside computations ─────────────────────────────────────────────────────

/// What HMAC-SHA256 (the `hmac` and `sha2` crates) gives for `key` and `msg`.
pub uninterp spec fn hmac_sha256(key: Seq<u8>, msg: Seq<u8>) -> Seq<u8>;

/// `Hmac::<Sha256>::new_from_slice(key)`, `update(msg)`, `finalize().into_bytes()`:
/// the 32-byte HMAC-SHA256 tag of `msg` under `key`. HMAC takes keys of any length.
#[verifier::external_body]
fn hmac_sha256_tag(key: &[u8], msg: &[u8]) -> (tag: Vec<u8>)
    ensures
        tag@ == hmac_sha256(key@, msg@),
        tag@.len() == 32,
{
    let mut mac = hmac::Hmac::<sha2::Sha256>::new_from_slice(key).expect("HMAC can take key of any size");
    mac.update(msg);
    mac.finalize().into_bytes().to_vec()
}

/// The character of the standard Base64 alphabet for the six-bit value `v`.
pub open spec fn base64_char(v: int) -> char {
    if v < 26 {
        ((65 + v) as u32) as char
    } else if v < 52 {
        ((97 + v - 26) as u32) as char
    } else if v < 62 {
        ((48 + v - 52) as u32) as char
    } else if v == 62 {
        '+'
    } else {
        '/'
    }
}

/// Base64 with the standard alphabet and `=` padding (RFC 4648, section 4):
/// each three bytes become four characters, a final one or two bytes become
/// two or three characters and padding.
pub open spec fn base64_standard(bs: Seq<u8>) -> Seq<char>
    decreases bs.len(),
{
    let b0 = bs[0] as int;
    let b1 = bs[1] as int;
    let b2 = bs[2] as int;
    if bs.len() == 0 {
        seq![]
    } else if bs.len() == 1 {
        seq![base64_char(b0 / 4), base64_char((b0 % 4) * 16), '=', '=']
    } else if bs.len() == 2 {
        seq![base64_char(b0 / 4), base64_char((b0 % 4) * 16 + b1 / 16), base64_char((b1 % 16) * 4), '=']
    } else {
        seq![
            base64_char(b0 / 4),
            base64_char((b0 % 4) * 16 + b1 / 16),
            base64_char((b1 % 16) * 4 + b2 / 64),
            base64_char(b2 % 64),
        ] + base64_standard(bs.subrange(3, bs.len() as int))
    }
}

/// `base64::engine::general_purpose::STANDARD.encode`: Base64 with the standard
/// alphabet and padding.
#[verifier::external_body]
fn base64_encode(bytes: &[u8]) -> (s: String)
    ensures
        s@ == base64_standard(bytes@),
{
    base64::engine::general_purpose::STANDARD.encode(bytes)
}

/// `c` is a lowercase hexadecimal digit.
pub open spec fn is_lower_hex(c: char) -> bool {
    ('0' <= c && c <= '9') || ('a' <= c && c <= 'f')
}

/// The hyphenated lowercase text of a version-4 (random) UUID:
/// 8-4-4-4-12 hex digits, version digit 4, variant digit 8, 9, a or b.
pub open spec fn is_uuid_v4_text(s: Seq<char>) -> bool {
    &&& s.len() == 36
    &&& forall|i: int| 0 <= i < 36 ==> (if i == 8 || i == 13 || i == 18 || i == 23 { #[trigger] s[i] == '-' } else { is_lower_hex(s[i]) })
    &&& s[14] == '4'
    &&& (s[19] == '8' || s[19] == '9' || s[19] == 'a' || s[19] == 'b')
}

/// `Uuid::new_v4().to_string()`: a fresh random UUID. Which one is left to
/// chance; what holds of every outcome is its form.
#[verifier::external_body]
fn new_uuid_v4_text() -> (s: String)
    ensures
        is_uuid_v4_text(s@),
{
    uuid::Uuid::new_v4().to_string()
}

/// Milliseconds since the Unix epoch by the system clock
/// (`SystemTime::now().duration_since(UNIX_EPOCH)`, `as_millis`); `None` when the
/// clock reads before 1970. Nothing is said of the value: it is the time.
#[verifier::external_body]
fn unix_time_millis() -> Option<u128> {
    match std::time::SystemTime::now().duration_since(std::time::UNIX_EPOCH) {
        Ok(d) => Some(d.as_millis()),
        Err(_) => None,
    }
}

// ── Signing ──────────────────────────────────────────────────────────────────

/// The signature of a request by `token` at time `t` with `nonce`, under `secret`.
pub open spec fn spec_signature(token: Seq<char>, secret: Seq<char>, t: Seq<char>, nonce: Seq<char>) -> Seq<char> {
    base64_standard(hmac_sha256(vstd::utf8::encode_utf8(secret), vstd::utf8::encode_utf8(token + t + nonce)))
}

/// Signs a request: Base64 of the HMAC-SHA256 of `token + t + nonce` keyed with `secret`.
pub fn sign_request(token: &str, secret: &str, t: &str, nonce: &str) -> (sign: String)
    ensures
        sign@ == spec_signature(token@, secret@, t@, nonce@),
        sign@.len() == 44,
{
    let mut to_sign = token.to_string();
    to_sign.append(t);
    to_sign.append(nonce);
    let tag = hmac_sha256_tag(secret.as_bytes(), to_sign.as_str().as_bytes());
    proof {
        lemma_base64_length(tag@);
    }
    base64_encode(tag.as_slice())
}

/// The headers of a SwitchBot API request: the time `t` in milliseconds, a fresh
/// `nonce`, and their signature; `None` when the system clock reads before 1970.
pub fn generate_auth_headers(token: &str, secret: &str) -> (r: Option<(String, String, String)>)
    ensures
        r matches Some(h) ==> {
            &&& exists|ms: nat| h.0@ == crate::text::decimal(ms)
            &&& is_uuid_v4_text(h.1@)
            &&& h.2@ == spec_signature(token@, secret@, h.0@, h.1@)
            &&& h.2@.len() == 44
        },
{
    let ms = match unix_time_millis() {
        Some(ms) => ms,
        None => return None,
    };
    let t = crate::text::decimal_string(ms);
    let nonce = new_uuid_v4_text();
    let sign = sign_request(token, secret, t.as_str(), nonce.as_str());
    Some((t, nonce, sign))
}

/// The v1.1 address of the status of device `dev_id`.
pub open spec fn meter_status_url_text(dev_id: Seq<char>) -> Seq<char> {
    "https://api.switch-bot.com/v1.1/devices/"@ + dev_id + "/status"@
}

/// `https://api.switch-bot.com/v1.1/devices/{dev_id}/status`.
pub fn meter_status_url(dev_id: &str) -> (url: String)
    ensures
        url@ == meter_status_url_text(dev_id@),
{
    let mut url = "https://api.switch-bot.com/v1.1/devices/".to_string();
    url.append(dev_id);
    url.append("/status");
    url
}

/// Base64 writes four characters for every three bytes begun.
pub proof fn lemma_base64_length(bs: Seq<u8>)
    ensures
        base64_standard(bs).len() == 4 * ((bs.len() + 2) / 3),
    decreases bs.len(),
{
    if bs.len() >= 3 {
        lemma_base64_length(bs.subrange(3, bs.len() as int));
    }
}

} // verus!
