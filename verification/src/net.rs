//! Text handling of the display client's network exchanges: the Home Assistant
//! URL, the HTTP request and the JSON reply, and the NTP packet.

use vstd::prelude::*;
use vstd::string::{StrSliceExecFns, StringSliceAdditionalSpecFns};
use crate::text;
use crate::text::{chars_of, find_char, occurs_at_exec, parse_unsigned_chars, str_from_utf8};

verus! {

broadcast use vstd::string::group_string_axioms;

#[derive(Debug, Clone, Copy, PartialEq, Eq, Structural)]
pub enum NetworkError {
    Config,
    Connect,
    Send,
    Timeout,
    NoData,
    Parse,
    Dns,
    BadUrl,
}

// ── URL ──────────────────────────────────────────────────────────────────────

pub open spec fn http_scheme() -> Seq<char> {
    seq!['h', 't', 't', 'p', ':', '/', '/']
}

/// Host and port of an `http://host[:port][/path]` URL; the port defaults to 80.
pub open spec fn spec_parse_authority(url: Seq<char>) -> Result<(Seq<char>, u16), NetworkError> {
    if url.len() < 7 || url.subrange(0, 7) != http_scheme() {
        Err(NetworkError::BadUrl)
    } else {
        let rest = url.subrange(7, url.len() as int);
        let authority = match text::first_index_of(rest, '/') {
            Some(i) => rest.subrange(0, i),
            None => rest,
        };
        match text::first_index_of(authority, ':') {
            Some(i) => match text::parse_unsigned(authority.subrange(i + 1, authority.len() as int), 10, 65535) {
                Some(p) => Ok((authority.subrange(0, i), p as u16)),
                None => Err(NetworkError::BadUrl),
            },
            None => Ok((authority, 80u16)),
        }
    }
}

/// Splits an `http://` URL into host and port.
pub fn parse_authority(url: &str) -> (r: Result<(&str, u16), NetworkError>)
    ensures
        match (r, spec_parse_authority(url@)) {
            (Ok((h, p)), Ok((sh, sp))) => h@ == sh && p == sp,
            (Err(e), Err(se)) => e == se,
            _ => false,
        },
{
    let cs = chars_of(url);
    let n = cs.len();
    let scheme = ['h', 't', 't', 'p', ':', '/', '/'];
    if n < 7 || !occurs_at_exec(cs.as_slice(), scheme.as_slice(), 0) {
        proof {
            if n >= 7 {
                assert(scheme@ =~= http_scheme());
                assert(url@.subrange(0, 7) != http_scheme());
            }
        }
        return Err(NetworkError::BadUrl);
    }
    assert(scheme@ =~= http_scheme());
    let ghost rest = url@.subrange(7, n as int);
    let rest_v = string_chars(&cs, 7, n);
    assert(rest_v@ =~= rest);
    let auth_end: usize = match find_char(rest_v.as_slice(), '/') {
        Some(i) => i,
        None => rest_v.len(),
    };
    proof {
        text::lemma_first_index_of_matches(rest, '/');
    }
    let ghost authority = rest.subrange(0, auth_end as int);
    assert(authority =~= match text::first_index_of(rest, '/') {
        Some(i) => rest.subrange(0, i),
        None => rest,
    });
    let auth_v = string_chars(&rest_v, 0, auth_end);
    assert(auth_v@ =~= authority);
    proof {
        text::lemma_first_index_of_matches(authority, ':');
    }
    match find_char(auth_v.as_slice(), ':') {
        Some(i) => {
            assert(text::first_index_of(authority, ':') == Some(i as int));
            let port_v = string_chars(&auth_v, i + 1, auth_end);
            assert(port_v@ =~= authority.subrange(i + 1, authority.len() as int));
            match parse_unsigned_chars(port_v.as_slice(), 10, 65535) {
                Some(p) => {

                    let host = url.substring_char(7, 7 + i);
                    assert(host@ =~= authority.subrange(0, i as int));
                    Ok((host, p as u16))
                },
                None => Err(NetworkError::BadUrl),
            }
        },
        None => {
            assert(text::first_index_of(authority, ':') is None);
            let host = url.substring_char(7, 7 + auth_end);
            assert(host@ =~= authority);
            Ok((host, 80u16))
        },
    }
}

/// `cs[from..to]` as a new vector.
fn string_chars(cs: &Vec<char>, from: usize, to: usize) -> (v: Vec<char>)
    requires
        from <= to <= cs@.len(),
    ensures
        v@ == cs@.subrange(from as int, to as int),
{
    let mut v: Vec<char> = Vec::new();
    let mut i = from;
    while i < to
        invariant
            from <= i <= to <= cs@.len(),
            v@ == cs@.subrange(from as int, i as int),
        decreases to - i,
    {
        v.push(cs[i]);
        i = i + 1;
    }
    v
}

// ── IPv4 address ─────────────────────────────────────────────────────────────

/// `cs` cut at every `c`: the pieces between the occurrences, in order.
#[verifier::opaque]
pub open spec fn split_on(cs: Seq<char>, c: char) -> Seq<Seq<char>>
    decreases cs.len(),
{
    match text::first_index_of(cs, c) {
        None => seq![cs],
        Some(i) => if 0 <= i < cs.len() {
            seq![cs.subrange(0, i)] + split_on(cs.subrange(i + 1, cs.len() as int), c)
        } else {
            seq![cs]
        },
    }
}

/// The value of one part of a dotted address: one to three decimal digits, no
/// leading zero unless the part is "0", at most 255.
pub open spec fn octet_value(part: Seq<char>) -> Option<int> {
    if 1 <= part.len() <= 3 && text::all_digits(part, 10) && !(part.len() > 1 && part[0] == '0')
        && text::digits_value(part, 10) <= 255 {
        Some(text::digits_value(part, 10))
    } else {
        None
    }
}

/// The address written as `a.b.c.d`, as `Ipv4Addr`'s parser reads it.
pub open spec fn spec_parse_ipv4(cs: Seq<char>) -> Option<Seq<int>> {
    let parts = split_on(cs, '.');
    if parts.len() == 4 && forall|k: int| 0 <= k < 4 ==> #[trigger] octet_value(parts[k]) is Some {
        Some(Seq::new(4, |k: int| octet_value(parts[k])->0))
    } else {
        None
    }
}

/// Cutting at the first `c`, found at `k`.
proof fn lemma_split_at_first(t: Seq<char>, c: char, k: int)
    requires
        0 <= k < t.len(),
        t[k] == c,
        forall|j: int| 0 <= j < k ==> t[j] != c,
    ensures
        split_on(t, c) == seq![t.subrange(0, k)] + split_on(t.subrange(k + 1, t.len() as int), c),
{
    reveal(split_on);
    text::lemma_first_index_of_matches(t, c);
    let f = text::first_index_of(t, c);
    assert(f == Some(k)) by {
        let j = f->0;
        if j < k {} else if j > k {}
    }
}

/// Without `c` there is one piece.
proof fn lemma_split_none(t: Seq<char>, c: char)
    requires
        forall|j: int| 0 <= j < t.len() ==> t[j] != c,
    ensures
        split_on(t, c) == seq![t],
{
    reveal(split_on);
    text::lemma_first_index_of_matches(t, c);
}

/// The octet `cs[from..to]`.
fn octet_at(cs: &[char], from: usize, to: usize) -> (r: Option<u8>)
    requires
        from <= to <= cs@.len(),
    ensures
        r is None <==> octet_value(cs@.subrange(from as int, to as int)) is None,
        r matches Some(x) ==> octet_value(cs@.subrange(from as int, to as int)) == Some(x as int),
{
    let ghost part = cs@.subrange(from as int, to as int);
    let len = to - from;
    if len < 1 || len > 3 {
        return None;
    }
    if len > 1 && cs[from] == '0' {
        return None;
    }
    if cs[from] == '+' {
        assert(!text::all_digits(part, 10)) by {
            assert(text::digit_value(part[0], 10) is None);
        }
        return None;
    }
    let ds = text::string_of(cs, from, to);
    let dv = chars_of(ds.as_str());
    assert(dv@ == part);
    assert(text::unsigned_digits(part) == part);
    match parse_unsigned_chars(dv.as_slice(), 10, 255) {
        Some(v) => Some(v as u8),
        None => None,
    }
}

/// Reads a dotted IPv4 address such as "192.168.1.10"; anything else is refused
/// as an unresolvable host.
pub fn parse_ipv4(host: &str) -> (r: Result<[u8; 4], NetworkError>)
    ensures
        match spec_parse_ipv4(host@) {
            Some(v) => r matches Ok(a) && a@ == Seq::new(4, |k: int| v[k] as u8),
            None => r == Err::<[u8; 4], NetworkError>(NetworkError::Dns),
        },
{
    let cs = chars_of(host);
    let n = cs.len();
    let ghost all = cs@;
    let mut octets: [u8; 4] = [0u8; 4];
    let mut found: usize = 0;
    let mut start: usize = 0;
    let mut i: usize = 0;
    let ghost mut done: Seq<Seq<char>> = seq![];
    assert(all.subrange(0, n as int) =~= all);
    assert(done + split_on(all, '.') =~= split_on(all, '.'));
    while i < n
        invariant
            cs@ == all,
            n == all.len(),
            all == host@,
            start <= i <= n,
            found == done.len(),
            found <= 4,
            split_on(all, '.') == done + split_on(all.subrange(start as int, n as int), '.'),
            forall|j: int| start <= j < i ==> all[j] != '.',
            forall|k: int| 0 <= k < found ==> #[trigger] octet_value(done[k]) == Some(octets@[k] as int),
        decreases n - i,
    {
        if cs[i] == '.' {
            proof {
                let t = all.subrange(start as int, n as int);
                lemma_split_at_first(t, '.', i - start);
                assert(t.subrange(0, i - start) =~= all.subrange(start as int, i as int));
                assert(t.subrange(i - start + 1, t.len() as int) =~= all.subrange(i + 1, n as int));
            }
            if found == 4 {
                proof {
                    let rest = split_on(all.subrange(i + 1, n as int), '.');
                    lemma_split_len_pos(all.subrange(i + 1, n as int), '.');
                    assert(split_on(all, '.').len() == 5 + rest.len());
                }
                return Err(NetworkError::Dns);
            }
            match octet_at(cs.as_slice(), start, i) {
                None => {
                    proof {
                        let parts = split_on(all, '.');
                        assert(parts[found as int] == all.subrange(start as int, i as int));
                    }
                    return Err(NetworkError::Dns);
                },
                Some(v) => {
                    proof {
                        done = done.push(all.subrange(start as int, i as int));
                    }
                    octets[found] = v;
                    found = found + 1;
                    start = i + 1;
                },
            }
        }
        i = i + 1;
    }
    proof {
        let t = all.subrange(start as int, n as int);
        lemma_split_none(t, '.');
    }
    let ghost parts = split_on(all, '.');
    assert(parts.len() == found + 1);
    // the last part, after the last dot
    if found != 3 {
        return Err(NetworkError::Dns);
    }
    assert(parts[3] == all.subrange(start as int, n as int));
    match octet_at(cs.as_slice(), start, n) {
        None => {
            assert(!(octet_value(parts[3]) is Some));
            Err(NetworkError::Dns)
        },
        Some(v) => {
            octets[3] = v;
            proof {
                done = done.push(all.subrange(start as int, n as int));
                assert(split_on(all, '.') =~= done);
                assert(octet_value(done[3]) == Some(v as int));
                assert forall|k: int| 0 <= k < 4 implies #[trigger] octet_value(parts[k]) is Some by {
                    assert(octet_value(done[k]) == Some(octets@[k] as int));
                }
            }
            assert(octets@ =~= Seq::new(4, |k: int| spec_parse_ipv4(host@)->0[k] as u8));
            Ok(octets)
        },
    }
}

/// There is always at least one piece.
proof fn lemma_split_len_pos(t: Seq<char>, c: char)
    ensures
        split_on(t, c).len() >= 1,
    decreases t.len(),
{
    reveal(split_on);
    match text::first_index_of(t, c) {
        None => {},
        Some(i) => if 0 <= i < t.len() {
            lemma_split_len_pos(t.subrange(i + 1, t.len() as int), c);
        },
    }
}

// ── Numbers in the JSON reply ───────────────────────────────────────────────

/// Characters with the Unicode `White_Space` property, which `str::trim` removes.
pub open spec fn is_white_space(c: char) -> bool {
    let v = c as u32;
    (0x09 <= v <= 0x0d) || v == 0x20 || v == 0x85 || v == 0xa0 || v == 0x1680
        || (0x2000 <= v <= 0x200a) || v == 0x2028 || v == 0x2029 || v == 0x202f || v == 0x205f
        || v == 0x3000
}

pub open spec fn trim_start(cs: Seq<char>) -> Seq<char>
    decreases cs.len(),
{
    if cs.len() > 0 && is_white_space(cs[0]) { trim_start(cs.drop_first()) } else { cs }
}

pub open spec fn trim_end(cs: Seq<char>) -> Seq<char>
    decreases cs.len(),
{
    if cs.len() > 0 && is_white_space(cs.last()) { trim_end(cs.drop_last()) } else { cs }
}

/// What `str::trim` leaves of `cs`.
pub open spec fn trimmed(cs: Seq<char>) -> Seq<char> {
    trim_end(trim_start(cs))
}

fn is_white_space_exec(c: char) -> (b: bool)
    ensures
        b == is_white_space(c),
{
    let v = c as u32;
    (0x09 <= v && v <= 0x0d) || v == 0x20 || v == 0x85 || v == 0xa0 || v == 0x1680
        || (0x2000 <= v && v <= 0x200a) || v == 0x2028 || v == 0x2029 || v == 0x202f || v == 0x205f
        || v == 0x3000
}

/// `str::trim` on a character vector.
pub fn trim_chars(cs: &[char]) -> (r: Vec<char>)
    ensures
        r@ == trimmed(cs@),
{
    let n = cs.len();
    let mut a: usize = 0;
    assert(cs@ =~= cs@.subrange(0, n as int));
    while a < n && is_white_space_exec(cs[a])
        invariant
            a <= n == cs@.len(),
            trim_start(cs@) == trim_start(cs@.subrange(a as int, n as int)),
        decreases n - a,
    {
        assert(cs@.subrange(a as int, n as int).drop_first() =~= cs@.subrange(a + 1, n as int));
        a = a + 1;
    }
    assert(trim_start(cs@) == cs@.subrange(a as int, n as int));
    let mut b: usize = n;
    while b > a && is_white_space_exec(cs[b - 1])
        invariant
            a <= b <= n == cs@.len(),
            trim_end(cs@.subrange(a as int, n as int)) == trim_end(cs@.subrange(a as int, b as int)),
        decreases b,
    {
        assert(cs@.subrange(a as int, b as int).drop_last() =~= cs@.subrange(a as int, b - 1));
        b = b - 1;
    }
    let mut r: Vec<char> = Vec::new();
    let mut i = a;
    while i < b
        invariant
            a <= i <= b <= n == cs@.len(),
            r@ == cs@.subrange(a as int, i as int),
        decreases b - i,
    {
        r.push(cs[i]);
        i = i + 1;
    }
    r
}

pub open spec fn is_ascii_char(c: char) -> bool {
    (c as u32) < 0x80
}

/// Number of bytes of `c` in UTF-8 is at least three.
pub open spec fn is_wide_char(c: char) -> bool {
    (c as u32) >= 0x800
}

/// How `parse_decimal2` reads a string: a value, a parse failure, or a panic of
/// the byte slicing or of the arithmetic.
pub enum DecimalRead {
    Value(int),
    Invalid,
    Panics,
}

/// Hundredths given by the digits after the point: none, one (tenths) or the
/// first two; the slice of the first two bytes fails on a wide character.
pub open spec fn spec_fraction(frac: Seq<char>) -> DecimalRead {
    if frac.len() == 0 {
        DecimalRead::Value(0)
    } else if frac.len() == 1 && is_ascii_char(frac[0]) {
        match text::parse_unsigned(frac, 10, 0xffff_ffff) {
            Some(v) => DecimalRead::Value(v * 10),
            None => DecimalRead::Invalid,
        }
    } else if is_wide_char(frac[0]) {
        DecimalRead::Panics
    } else if !is_ascii_char(frac[0]) {
        DecimalRead::Invalid
    } else if !is_ascii_char(frac[1]) {
        DecimalRead::Panics
    } else {
        match text::parse_unsigned(frac.subrange(0, 2), 10, 0xffff_ffff) {
            Some(v) => DecimalRead::Value(v),
            None => DecimalRead::Invalid,
        }
    }
}

/// `"3.24"` reads as 324 and `"5"` as 500: a decimal number in hundredths, with
/// digits past the second decimal dropped.
pub open spec fn spec_parse_decimal2(s: Seq<char>) -> DecimalRead {
    match text::first_index_of(s, '.') {
        Some(i) => match text::parse_unsigned(s.subrange(0, i), 10, 0xffff_ffff) {
            None => DecimalRead::Invalid,
            Some(iv) => match spec_fraction(s.subrange(i + 1, s.len() as int)) {
                DecimalRead::Value(fv) => if iv * 100 + fv <= 0xffff_ffff {
                    DecimalRead::Value(iv * 100 + fv)
                } else {
                    DecimalRead::Panics
                },
                other => other,
            },
        },
        None => match text::parse_unsigned(s, 10, 0xffff_ffff) {
            None => DecimalRead::Invalid,
            Some(iv) => if iv * 100 <= 0xffff_ffff { DecimalRead::Value(iv * 100) } else { DecimalRead::Panics },
        },
    }
}

/// A number of at most two decimal digits is below 100.
proof fn lemma_two_digits_below_100(cs: Seq<char>)
    requires
        cs.len() <= 2,
        text::parse_unsigned(cs, 10, 0xffff_ffff) is Some,
    ensures
        text::parse_unsigned(cs, 10, 0xffff_ffff)->0 < (if cs.len() == 1 { 10int } else { 100int }),
        text::parse_unsigned(cs, 10, 0xffff_ffff)->0 >= 0,
{
    let ds = text::unsigned_digits(cs);
    assert(ds.len() <= cs.len());
    assert(text::digits_value(Seq::<char>::empty(), 10) == 0);
    let last = ds.last();
    assert(text::digit_value(last, 10) is Some);
    assert(0 <= text::digit_value(last, 10)->0 <= 9);
    if ds.len() == 2 {
        let first = ds[0];
        assert(ds.drop_last().last() == first);
        assert(text::digit_value(first, 10) is Some);
        assert(0 <= text::digit_value(first, 10)->0 <= 9);
        assert(ds.drop_last().drop_last() =~= Seq::<char>::empty());
        assert(text::digits_value(ds.drop_last(), 10) == text::digit_value(first, 10)->0);
        assert(text::digits_value(ds, 10) == text::digits_value(ds.drop_last(), 10) * 10 + text::digit_value(last, 10)->0);
    } else {
        assert(ds.drop_last() =~= Seq::<char>::empty());
        assert(text::digits_value(ds, 10) == text::digit_value(last, 10)->0);
    }
}

/// The hundredths after the point are below 100.
proof fn lemma_fraction_below_100(frac: Seq<char>)
    ensures
        spec_fraction(frac) matches DecimalRead::Value(v) ==> 0 <= v < 100,
{
    if frac.len() == 1 && is_ascii_char(frac[0]) && text::parse_unsigned(frac, 10, 0xffff_ffff) is Some {
        lemma_two_digits_below_100(frac);
    }
    if frac.len() >= 2 && text::parse_unsigned(frac.subrange(0, 2), 10, 0xffff_ffff) is Some {
        lemma_two_digits_below_100(frac.subrange(0, 2));
    }
}

fn parse_fraction(frac: &[char]) -> (r: Result<u32, NetworkError>)
    requires
        !(spec_fraction(frac@) is Panics),
    ensures
        spec_fraction(frac@) matches DecimalRead::Value(v) ==> 0 <= v < 100,
        match spec_fraction(frac@) {
            DecimalRead::Value(v) => r == Ok::<u32, NetworkError>(v as u32),
            _ => r == Err::<u32, NetworkError>(NetworkError::Parse),
        },
{
    proof {
        lemma_fraction_below_100(frac@);
    }
    if frac.len() == 0 {
        Ok(0)
    } else if frac.len() == 1 && (frac[0] as u32) < 0x80 {
        match parse_unsigned_chars(frac, 10, 0xffff_ffff) {
            Some(v) => Ok(v * 10),
            None => Err(NetworkError::Parse),
        }
    } else if (frac[0] as u32) < 0x80 {
        let two = [frac[0], frac[1]];
        assert(two@ =~= frac@.subrange(0, 2));
        match parse_unsigned_chars(two.as_slice(), 10, 0xffff_ffff) {
            Some(v) => Ok(v),
            None => Err(NetworkError::Parse),
        }
    } else {
        Err(NetworkError::Parse)
    }
}

/// Parses "3.24" as 324 and "5" as 500 (hundredths).
pub fn parse_decimal2(s: &str) -> (r: Result<u32, NetworkError>)
    requires
        !(spec_parse_decimal2(s@) is Panics),
    ensures
        match spec_parse_decimal2(s@) {
            DecimalRead::Value(v) => r == Ok::<u32, NetworkError>(v as u32),
            _ => r == Err::<u32, NetworkError>(NetworkError::Parse),
        },
{
    let cs = chars_of(s);
    parse_decimal2_chars(&cs)
}

fn parse_decimal2_chars(cs: &Vec<char>) -> (r: Result<u32, NetworkError>)
    requires
        !(spec_parse_decimal2(cs@) is Panics),
    ensures
        match spec_parse_decimal2(cs@) {
            DecimalRead::Value(v) => r == Ok::<u32, NetworkError>(v as u32),
            _ => r == Err::<u32, NetworkError>(NetworkError::Parse),
        },
{
    let ghost s = cs@;
    proof {
        text::lemma_first_index_of_matches(s, '.');
    }
    match find_char(cs.as_slice(), '.') {
        Some(i) => {
            assert(text::first_index_of(s, '.') == Some(i as int));
            let int_s = string_chars(cs, 0, i);
            assert(i < cs.len());
            let frac_s = string_chars(cs, i + 1, cs.len());
            let iv = match parse_unsigned_chars(int_s.as_slice(), 10, 0xffff_ffff) {
                Some(v) => v,
                None => return Err(NetworkError::Parse),
            };
            assert(int_s@ =~= s.subrange(0, i as int));
            assert(frac_s@ =~= s.subrange(i + 1, s.len() as int));
            let fv = parse_fraction(frac_s.as_slice())?;
            Ok(iv * 100 + fv)
        },
        None => {
            assert(text::first_index_of(s, '.') is None);
            let iv = match parse_unsigned_chars(cs.as_slice(), 10, 0xffff_ffff) {
                Some(v) => v,
                None => return Err(NetworkError::Parse),
            };
            Ok(iv * 100)
        },
    }
}

/// Whether `parse_decimal2` panics on `s`: a byte slice that ends inside a
/// character, or a value past `u32`.
pub fn decimal2_panics(s: &str) -> (b: bool)
    ensures
        b == (spec_parse_decimal2(s@) is Panics),
{
    let cs = chars_of(s);
    let ghost sq = cs@;
    proof {
        text::lemma_first_index_of_matches(sq, '.');
    }
    match find_char(cs.as_slice(), '.') {
        None => {
            assert(text::first_index_of(sq, '.') is None);
            match parse_unsigned_chars(cs.as_slice(), 10, 0xffff_ffff) {
                Some(iv) => (iv as u64) * 100 > 0xffff_ffff,
                None => false,
            }
        },
        Some(i) => {
            assert(text::first_index_of(sq, '.') == Some(i as int));
            assert(i < cs.len());
            let int_s = string_chars(&cs, 0, i);
            let frac = string_chars(&cs, i + 1, cs.len());
            assert(int_s@ =~= sq.subrange(0, i as int));
            assert(frac@ =~= sq.subrange(i + 1, sq.len() as int));
            let iv = match parse_unsigned_chars(int_s.as_slice(), 10, 0xffff_ffff) {
                Some(v) => v,
                None => return false,
            };
            let n = frac.len();
            if n == 0 {
                (iv as u64) * 100 > 0xffff_ffff
            } else if n == 1 && (frac[0] as u32) < 0x80 {
                match parse_unsigned_chars(frac.as_slice(), 10, 0xffff_ffff) {
                    Some(v) => (iv as u64) * 100 + (v as u64) * 10 > 0xffff_ffff,
                    None => false,
                }
            } else if (frac[0] as u32) >= 0x800 {
                true
            } else if (frac[0] as u32) >= 0x80 {
                false
            } else if (frac[1] as u32) >= 0x80 {
                true
            } else {
                let two = [frac[0], frac[1]];
                assert(two@ =~= frac@.subrange(0, 2));
                match parse_unsigned_chars(two.as_slice(), 10, 0xffff_ffff) {
                    Some(v) => (iv as u64) * 100 + (v as u64) > 0xffff_ffff,
                    None => false,
                }
            }
        },
    }
}

/// The two template fields `power_w` and `power_a` as watts and hundredths of
/// an ampere; surrounding white space is ignored and anything that is not a
/// number (such as "unknown") is refused.
pub fn power_from_fields(power_w: &str, power_a: &str) -> (r: Result<(u32, u32), NetworkError>)
    requires
        text::parse_unsigned(trimmed(power_w@), 10, 0xffff_ffff) is Some ==> !(spec_parse_decimal2(trimmed(power_a@)) is Panics),
    ensures
        match (text::parse_unsigned(trimmed(power_w@), 10, 0xffff_ffff), spec_parse_decimal2(trimmed(power_a@))) {
            (Some(w), DecimalRead::Value(a)) => r == Ok::<(u32, u32), NetworkError>((w as u32, a as u32)),
            _ => r == Err::<(u32, u32), NetworkError>(NetworkError::Parse),
        },
{
    let w_chars = chars_of(power_w);
    let w_trim = trim_chars(w_chars.as_slice());
    let watts = match parse_unsigned_chars(w_trim.as_slice(), 10, 0xffff_ffff) {
        Some(w) => w,
        None => return Err(NetworkError::Parse),
    };
    let a_chars = chars_of(power_a);
    let a_trim = trim_chars(a_chars.as_slice());
    let centi = parse_decimal2_chars(&a_trim)?;
    Ok((watts, centi))
}

// ── HTTP reply ───────────────────────────────────────────────────────────────

/// The JSON object in an HTTP reply: from the first `{` to the last `}` after it
/// (to the end if there is none), which skips headers and chunk-size lines.
pub open spec fn spec_json_object(text: Seq<char>) -> Option<Seq<char>> {
    match text::first_index_of(text, '{') {
        None => None,
        Some(start) => {
            let tail = text.subrange(start, text.len() as int);
            if exists|k: int| 0 <= k < tail.len() && tail[k] == '}' {
                let last = choose|k: int| 0 <= k < tail.len() && tail[k] == '}' && forall|j: int| k < j < tail.len() ==> tail[j] != '}';
                Some(tail.subrange(0, last + 1))
            } else {
                Some(tail)
            }
        },
    }
}

/// The JSON object in the bytes `body` received for the template request.
pub fn extract_json(body: &[u8]) -> (r: Result<String, NetworkError>)
    ensures
        body@.len() == 0 ==> r == Err::<String, NetworkError>(NetworkError::NoData),
        body@.len() > 0 && !vstd::utf8::valid_utf8(body@) ==> r == Err::<String, NetworkError>(NetworkError::Parse),
        body@.len() > 0 && vstd::utf8::valid_utf8(body@) ==> match spec_json_object(vstd::utf8::decode_utf8(body@)) {
            Some(j) => r matches Ok(s) && s@ == j,
            None => r == Err::<String, NetworkError>(NetworkError::Parse),
        },
{
    if body.len() == 0 {
        return Err(NetworkError::NoData);
    }
    let resp = match str_from_utf8(body) {
        Some(s) => s,
        None => return Err(NetworkError::Parse),
    };
    let cs = chars_of(resp);
    let ghost text = cs@;
    proof {
        text::lemma_first_index_of_matches(text, '{');
    }
    let start = match find_char(cs.as_slice(), '{') {
        Some(i) => i,
        None => {
            assert(text::first_index_of(text, '{') is None);
            return Err(NetworkError::Parse);
        },
    };
    assert(text::first_index_of(text, '{') == Some(start as int));
    let tail = string_chars(&cs, start, cs.len());
    let end = match crate::text::rfind_char(tail.as_slice(), '}') {
        Some(k) => {
            assert(tail@[k as int] == '}');
            let ghost last = choose|j: int| 0 <= j < tail@.len() && tail@[j] == '}' && forall|i: int| j < i < tail@.len() ==> tail@[i] != '}';
            assert(last == k as int) by {
                if last < k {} else if last > k {}
            }
            k + 1
        },
        None => tail.len(),
    };
    Ok(crate::text::string_of(tail.as_slice(), 0, end))
}

// ── Request ──────────────────────────────────────────────────────────────────

/// Path of Home Assistant's template endpoint.
pub const HA_TEMPLATE_PATH: &'static str = "/api/template";

/// The POST request that asks Home Assistant to render `template` at `host`,
/// authorised by `token`.
pub open spec fn template_request_text(host: Seq<char>, token: Seq<char>, template: Seq<char>, template_bytes: nat) -> Seq<char> {
    "POST "@ + HA_TEMPLATE_PATH@ + " HTTP/1.1\r\nHost: "@ + host + "\r\nAuthorization: Bearer "@ + token
        + "\r\nContent-Type: application/json\r\nContent-Length: "@ + text::decimal(template_bytes)
        + "\r\nConnection: close\r\n\r\n"@ + template
}

/// Writes the template request (the body's length is its length in bytes).
pub fn template_request(host: &str, token: &str, template: &str) -> (r: String)
    requires
        template.spec_bytes().len() <= usize::MAX,
    ensures
        r@ == template_request_text(host@, token@, template@, template.spec_bytes().len()),
{
    let mut req = "POST ".to_string();
    req.append(HA_TEMPLATE_PATH);
    req.append(" HTTP/1.1\r\nHost: ");
    req.append(host);
    req.append("\r\nAuthorization: Bearer ");
    req.append(token);
    req.append("\r\nContent-Type: application/json\r\nContent-Length: ");
    let len = crate::text::decimal_string(template.len() as u128);
    req.append(len.as_str());
    req.append("\r\nConnection: close\r\n\r\n");
    req.append(template);
    assert(req@ =~= template_request_text(host@, token@, template@, template.spec_bytes().len()));
    req
}

/// Local TCP port for a connection opened at `now_ms`: one of the 16384 dynamic ports.
pub fn local_port(now_ms: u64) -> (p: u16)
    ensures
        p == 49152 + now_ms % 16384,
{
    49152u16 + (now_ms % 16384) as u16
}

/// Refuses an SSID longer than 32 bytes or a passphrase longer than 64 bytes.
pub fn check_wifi_credentials(ssid: &str, password: &str) -> (r: Result<(), NetworkError>)
    requires
        ssid.spec_bytes().len() <= usize::MAX,
        password.spec_bytes().len() <= usize::MAX,
    ensures
        r is Ok <==> ssid.spec_bytes().len() <= 32 && password.spec_bytes().len() <= 64,
        r is Err ==> r == Err::<(), NetworkError>(NetworkError::Config),
{
    if ssid.len() > 32 || password.len() > 64 {
        return Err(NetworkError::Config);
    }
    Ok(())
}

// ── NTP ──────────────────────────────────────────────────────────────────────

/// Seconds from the NTP epoch (1900) to the Unix epoch (1970).
pub const NTP_UNIX_OFFSET: u32 = 2208988800;
/// Offset of Japan Standard Time from UTC, in seconds.
pub const JST_OFFSET_SECS: i32 = 32400;

/// An SNTP client request: LI = 0, version 4, mode 3, all other fields zero.
pub fn ntp_request() -> (pkt: [u8; 48])
    ensures
        pkt@[0] == 0x23,
        forall|i: int| 1 <= i < 48 ==> pkt@[i] == 0,
{
    let mut pkt = [0u8; 48];
    pkt[0] = 0x23;
    pkt
}

/// The transmit timestamp of an NTP reply: seconds since 1900, big-endian at bytes 40..44.
pub open spec fn ntp_transmit_secs(resp: Seq<u8>) -> int {
    resp[40] * 0x1000000 + resp[41] * 0x10000 + resp[42] * 0x100 + resp[43]
}

/// Local (JST) seconds since 1970 given by an NTP reply, as the client computes
/// them: a transmit time before 1970 counts as 1970, and the count is taken as
/// an `i32` (wrapping) before the zone offset is added.
pub open spec fn spec_ntp_to_jst(resp: Seq<u8>) -> int {
    let unix = ntp_transmit_secs(resp) - NTP_UNIX_OFFSET;
    let unix = if unix < 0 { 0 } else { unix };
    (unix as i32) + JST_OFFSET_SECS
}

/// Local (JST) time from an NTP reply of at least 48 bytes.
pub fn ntp_reply_to_jst(resp: &[u8]) -> (r: i32)
    requires
        resp@.len() >= 48,
        spec_ntp_to_jst(resp@) <= i32::MAX,
    ensures
        r == spec_ntp_to_jst(resp@),
{
    let ntp_s = ((resp[40] as u32) << 24) | ((resp[41] as u32) << 16) | ((resp[42] as u32) << 8) | (resp[43] as u32);
    assert(ntp_s == ntp_transmit_secs(resp@)) by {
        let (b0, b1, b2, b3) = (resp[40], resp[41], resp[42], resp[43]);
        assert((((b0 as u32) << 24) | ((b1 as u32) << 16) | ((b2 as u32) << 8) | (b3 as u32))
            == b0 as u32 * 0x1000000 + b1 as u32 * 0x10000 + b2 as u32 * 0x100 + b3 as u32) by (bit_vector);
    }
    let unix_s = ntp_s.saturating_sub(NTP_UNIX_OFFSET) as i32;
    unix_s + JST_OFFSET_SECS
}

} // verus!
