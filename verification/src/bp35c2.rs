//! The BP35C2 Wi-SUN module's text protocol: scanning for the smart meter,
//! ERXUDP notifications and the ECHONET Lite properties read from them.

use vstd::prelude::*;
use vstd::string::StringSliceAdditionalSpecFns;
use crate::text;
use crate::text::{chars_of, contains_chars, occurs_at_exec, parse_unsigned_chars, string_of};

verus! {

broadcast use vstd::string::group_string_axioms;

/// The `std::io::ErrorKind` values that the protocol functions report.
#[derive(Debug, Clone, Copy, PartialEq, Eq, Structural)]
pub enum ErrorKind {
    InvalidData,
    TimedOut,
}

/// ECHONET Lite frame reading the instantaneous power (EPC 0xE7), with CR LF.
pub const GET_POWER_W: [u8; 16] = [0x10, 0x81, 0x00, 0x01, 0x05, 0xFF, 0x01, 0x02, 0x88, 0x01, 0x62, 0x01, 0xE7, 0x00, 0x0d, 0x0a];
/// ECHONET Lite frame reading the instantaneous currents (EPC 0xE8), with CR LF.
pub const GET_POWER_A: [u8; 16] = [0x10, 0x81, 0x00, 0x01, 0x05, 0xFF, 0x01, 0x02, 0x88, 0x01, 0x62, 0x01, 0xE8, 0x00, 0x0d, 0x0a];

// ── Meter discovery ──────────────────────────────────────────────────────────

/// What the scan found out about the meter.
pub struct MeterInfo {
    pub channel: String,
    pub pan_id: String,
    pub meter_mac_addr: String,
    pub meter_ip6_addr: String,
    pub event20: bool,
    pub event22: bool,
}

pub struct MeterInfoView {
    pub channel: Seq<char>,
    pub pan_id: Seq<char>,
    pub meter_mac_addr: Seq<char>,
    pub meter_ip6_addr: Seq<char>,
    pub event20: bool,
    pub event22: bool,
}

impl View for MeterInfo {
    type V = MeterInfoView;

    open spec fn view(&self) -> MeterInfoView {
        MeterInfoView {
            channel: self.channel@,
            pan_id: self.pan_id@,
            meter_mac_addr: self.meter_mac_addr@,
            meter_ip6_addr: self.meter_ip6_addr@,
            event20: self.event20,
            event22: self.event22,
        }
    }
}

pub open spec fn event20_text() -> Seq<char> { seq!['E', 'V', 'E', 'N', 'T', ' ', '2', '0'] }
pub open spec fn event22_text() -> Seq<char> { seq!['E', 'V', 'E', 'N', 'T', ' ', '2', '2'] }
pub open spec fn event25_text() -> Seq<char> { seq!['E', 'V', 'E', 'N', 'T', ' ', '2', '5'] }
pub open spec fn erxudp_text() -> Seq<char> { seq!['E', 'R', 'X', 'U', 'D', 'P'] }
pub open spec fn channel_key() -> Seq<char> { seq!['C', 'h', 'a', 'n', 'n', 'e', 'l', ':'] }
pub open spec fn pan_id_key() -> Seq<char> { seq!['P', 'a', 'n', ' ', 'I', 'D', ':'] }
pub open spec fn addr_key() -> Seq<char> { seq!['A', 'd', 'd', 'r', ':'] }

pub open spec fn is_ascii_digit(c: char) -> bool {
    '0' <= c && c <= '9'
}

pub open spec fn is_digit_or_upper(c: char) -> bool {
    is_ascii_digit(c) || ('A' <= c && c <= 'Z')
}

/// `c` is in `[0-9]`, or with `upper` in `[0-9A-Z]`.
pub open spec fn in_class(c: char, upper: bool) -> bool {
    if upper { is_digit_or_upper(c) } else { is_ascii_digit(c) }
}

/// `line` matches `"  " + key + [class]{width}` starting at `p`, where the class
/// is `[0-9]` or, with `upper`, `[0-9A-Z]`.
pub open spec fn field_at(line: Seq<char>, key: Seq<char>, width: int, upper: bool, p: int) -> bool {
    let label = seq![' ', ' '] + key;
    &&& text::occurs_at(line, label, p)
    &&& p + label.len() + width <= line.len()
    &&& forall|j: int| 0 <= j < width ==> #[trigger] in_class(line[p + label.len() + j], upper)
}

/// The second capture group of the leftmost match of `(  key)([class]{width})`
/// in `line`, as the regular expression gives it.
#[verifier::opaque]
pub open spec fn field_value(line: Seq<char>, key: Seq<char>, width: int, upper: bool) -> Option<Seq<char>> {
    if exists|p: int| field_at(line, key, width, upper, p) {
        let p = choose|p: int| field_at(line, key, width, upper, p) && forall|q: int| q < p ==> !field_at(line, key, width, upper, q);
        Some(line.subrange(p + 2 + key.len(), p + 2 + key.len() + width))
    } else {
        None
    }
}

/// A line that names a field also carries a well-formed value for it.
pub open spec fn scan_line_ok(line: Seq<char>) -> bool {
    &&& text::contains(line, channel_key()) ==> field_value(line, channel_key(), 2, false) is Some
    &&& text::contains(line, pan_id_key()) ==> field_value(line, pan_id_key(), 4, true) is Some
    &&& text::contains(line, addr_key()) ==> field_value(line, addr_key(), 16, true) is Some
}

/// What one line of the scan reply tells.
pub open spec fn scan_line(info: MeterInfoView, line: Seq<char>) -> MeterInfoView {
    MeterInfoView {
        event20: info.event20 || text::contains(line, event20_text()),
        event22: info.event22 || text::contains(line, event22_text()),
        channel: if text::contains(line, channel_key()) { field_value(line, channel_key(), 2, false)->0 } else { info.channel },
        pan_id: if text::contains(line, pan_id_key()) { field_value(line, pan_id_key(), 4, true)->0 } else { info.pan_id },
        meter_mac_addr: if text::contains(line, addr_key()) { field_value(line, addr_key(), 16, true)->0 } else { info.meter_mac_addr },
        meter_ip6_addr: info.meter_ip6_addr,
    }
}

/// What the lines of a scan reply tell, read in order.
pub open spec fn scan_lines(info: MeterInfoView, lines: Seq<Seq<char>>) -> MeterInfoView
    decreases lines.len(),
{
    if lines.len() == 0 {
        info
    } else {
        scan_line(scan_lines(info, lines.drop_last()), lines.last())
    }
}

/// Views of a vector of strings.
pub open spec fn views(lines: Seq<String>) -> Seq<Seq<char>> {
    lines.map_values(|s: String| s@)
}

/// Position of the value of the leftmost `(  key)([class]{width})` match in `cs`.
fn find_field(cs: &[char], key: &[char], width: usize, upper: bool) -> (r: Option<usize>)
    requires
        key@.len() + width + 2 <= usize::MAX,
    ensures
        r is Some <==> field_value(cs@, key@, width as int, upper) is Some,
        r matches Some(s) ==> s + width <= cs@.len()
            && field_value(cs@, key@, width as int, upper) == Some(cs@.subrange(s as int, s + width)),
{
    reveal(field_value);
    let mut label: Vec<char> = Vec::new();
    label.push(' ');
    label.push(' ');
    let mut k: usize = 0;
    while k < key.len()
        invariant
            k <= key@.len(),
            label@ == seq![' ', ' '] + key@.subrange(0, k as int),
        decreases key.len() - k,
    {
        label.push(key[k]);
        k = k + 1;
    }
    assert(key@.subrange(0, key@.len() as int) =~= key@);
    let ll = label.len();
    let n = cs.len();
    let mut p: usize = 0;
    while p < n
        invariant
            p <= n == cs@.len(),
            ll == label@.len() == key@.len() + 2,
            label@ == seq![' ', ' '] + key@,
            key@.len() + width + 2 <= usize::MAX,
            forall|q: int| 0 <= q < p ==> !field_at(cs@, key@, width as int, upper, q),
        decreases n - p,
    {
        if occurs_at_exec(cs, label.as_slice(), p) && ll + width <= n - p {
            let base = p + ll;
            let mut j: usize = 0;
            let mut good = true;
            while j < width
                invariant
                    j <= width,
                    base == p + ll,
                    base + width <= n == cs@.len(),
                    good ==> forall|i: int| 0 <= i < j ==> #[trigger] in_class(cs@[base + i], upper),
                    !good ==> exists|i: int| 0 <= i < width && !in_class(#[trigger] cs@[base + i], upper),
                decreases width - j,
            {
                let c = cs[base + j];
                let ok = if upper { ('0' <= c && c <= '9') || ('A' <= c && c <= 'Z') } else { '0' <= c && c <= '9' };
                if !ok {
                    good = false;
                    assert(!in_class(cs@[base + j], upper));
                }
                j = j + 1;
            }
            if good {
                assert(field_at(cs@, key@, width as int, upper, p as int));
                proof {
                    reveal(field_value);
                    assert(exists|q: int| field_at(cs@, key@, width as int, upper, q));
                    let c = choose|q: int| field_at(cs@, key@, width as int, upper, q) && forall|r: int| r < q ==> !field_at(cs@, key@, width as int, upper, r);
                    assert(field_at(cs@, key@, width as int, upper, c));
                    assert(c == p) by {
                        if c < p {} else if c > p {}
                    }
                    assert(base == c + 2 + key@.len());
                    assert(field_value(cs@, key@, width as int, upper) == Some(cs@.subrange(base as int, base + width)));
                }
                return Some(base);
            }
        }
        p = p + 1;
    }
    proof {
        assert forall|q: int| !field_at(cs@, key@, width as int, upper, q) by {
            if field_at(cs@, key@, width as int, upper, q) {
                assert(q < n);
            }
        }
    }
    None
}

fn clone_string(s: &String) -> (r: String)
    ensures
        r@ == s@,
{
    s.clone()
}

/// The value of field `key` named in the line `cs`, or `old` if the line does not name it.
fn updated_field(cs: &[char], key: &[char], width: usize, upper: bool, old: String) -> (r: String)
    requires
        key@.len() + width + 2 <= usize::MAX,
        text::contains(cs@, key@) ==> field_value(cs@, key@, width as int, upper) is Some,
    ensures
        r@ == if text::contains(cs@, key@) { field_value(cs@, key@, width as int, upper)->0 } else { old@ },
{
    let n = cs.len();
    if contains_chars(cs, key) {
        if let Some(s) = find_field(cs, key, width, upper) {
            assert(s + width <= n);
            return string_of(cs, s, s + width);
        }
    }
    old
}

/// Updates what is known about the meter with one line of the scan reply.
fn scan_one_line(line: &String, info: MeterInfo) -> (r: MeterInfo)
    requires
        scan_line_ok(line@),
    ensures
        r@ == scan_line(info@, line@),
{
    let cs = chars_of(line.as_str());
    let ev20 = ['E', 'V', 'E', 'N', 'T', ' ', '2', '0'];
    let ev22 = ['E', 'V', 'E', 'N', 'T', ' ', '2', '2'];
    let ch = ['C', 'h', 'a', 'n', 'n', 'e', 'l', ':'];
    let pan = ['P', 'a', 'n', ' ', 'I', 'D', ':'];
    let addr = ['A', 'd', 'd', 'r', ':'];
    assert(ev20@ =~= event20_text());
    assert(ev22@ =~= event22_text());
    assert(ch@ =~= channel_key());
    assert(pan@ =~= pan_id_key());
    assert(addr@ =~= addr_key());
    let event20 = info.event20 || contains_chars(cs.as_slice(), ev20.as_slice());
    let event22 = info.event22 || contains_chars(cs.as_slice(), ev22.as_slice());
    let channel = updated_field(cs.as_slice(), ch.as_slice(), 2, false, info.channel);
    let pan_id = updated_field(cs.as_slice(), pan.as_slice(), 4, true, info.pan_id);
    let meter_mac_addr = updated_field(cs.as_slice(), addr.as_slice(), 16, true, info.meter_mac_addr);
    MeterInfo { channel, pan_id, meter_mac_addr, meter_ip6_addr: info.meter_ip6_addr, event20, event22 }
}

/// Reads the lines of a scan reply into what is known about the meter: the
/// EVENT 20 (beacon) and EVENT 22 (scan finished) flags, and the channel, PAN ID
/// and MAC address that the reply names.
pub fn scan_event20_lines(resp: &Vec<String>, info: MeterInfo) -> (r: MeterInfo)
    requires
        forall|i: int| 0 <= i < resp@.len() ==> scan_line_ok(#[trigger] resp@[i]@),
    ensures
        r@ == scan_lines(info@, views(resp@)),
{
    let ghost start = info@;
    let mut info = info;
    let mut i: usize = 0;
    while i < resp.len()
        invariant
            i <= resp@.len(),
            forall|k: int| 0 <= k < resp@.len() ==> scan_line_ok(#[trigger] resp@[k]@),
            info@ == scan_lines(start, views(resp@).subrange(0, i as int)),
        decreases resp.len() - i,
    {
        assert(views(resp@).subrange(0, i + 1).drop_last() =~= views(resp@).subrange(0, i as int));
        info = scan_one_line(&resp[i], info);
        i = i + 1;
    }
    assert(views(resp@).subrange(0, resp@.len() as int) =~= views(resp@));
    info
}

/// Whether `line` carries a well-formed value for each field it names.
fn scan_line_is_ok(line: &String) -> (b: bool)
    ensures
        b == scan_line_ok(line@),
{
    let cs = chars_of(line.as_str());
    let ch = ['C', 'h', 'a', 'n', 'n', 'e', 'l', ':'];
    let pan = ['P', 'a', 'n', ' ', 'I', 'D', ':'];
    let addr = ['A', 'd', 'd', 'r', ':'];
    assert(ch@ =~= channel_key());
    assert(pan@ =~= pan_id_key());
    assert(addr@ =~= addr_key());
    let ch_ok = !contains_chars(cs.as_slice(), ch.as_slice()) || find_field(cs.as_slice(), ch.as_slice(), 2, false).is_some();
    let pan_ok = !contains_chars(cs.as_slice(), pan.as_slice()) || find_field(cs.as_slice(), pan.as_slice(), 4, true).is_some();
    let addr_ok = !contains_chars(cs.as_slice(), addr.as_slice()) || find_field(cs.as_slice(), addr.as_slice(), 16, true).is_some();
    ch_ok && pan_ok && addr_ok
}

/// Whether every line of a scan reply that names a field also carries a
/// well-formed value for it (what `wait_resp_event20` needs).
pub fn scan_lines_ok(resp: &Vec<String>) -> (b: bool)
    ensures
        b == forall|i: int| 0 <= i < resp@.len() ==> scan_line_ok(#[trigger] resp@[i]@),
{
    let mut i: usize = 0;
    while i < resp.len()
        invariant
            i <= resp@.len(),
            forall|k: int| 0 <= k < i ==> scan_line_ok(#[trigger] resp@[k]@),
        decreases resp.len() - i,
    {
        if !scan_line_is_ok(&resp[i]) {
            return false;
        }
        i = i + 1;
    }
    true
}

/// Reads the lines of a scan reply on top of `meter_info`, which is left as it was.
pub fn wait_resp_event20(resp: &Vec<String>, meter_info: &mut MeterInfo) -> (r: MeterInfo)
    requires
        forall|i: int| 0 <= i < resp@.len() ==> scan_line_ok(#[trigger] resp@[i]@),
    ensures
        *final(meter_info) == *old(meter_info),
        r@ == scan_lines(old(meter_info)@, views(resp@)),
{
    let copy = MeterInfo {
        channel: clone_string(&meter_info.channel),
        pan_id: clone_string(&meter_info.pan_id),
        meter_mac_addr: clone_string(&meter_info.meter_mac_addr),
        meter_ip6_addr: clone_string(&meter_info.meter_ip6_addr),
        event20: meter_info.event20,
        event22: meter_info.event22,
    };
    scan_event20_lines(resp, copy)
}

// ── Commands ─────────────────────────────────────────────────────────────────

/// The active scan for the meter: all channels, duration 6.
pub const SCAN_COMMAND: &'static str = "SKSCAN 2 FFFFFFFF 6 0";

/// `prefix` followed by `arg`.
fn command_with(prefix: &str, arg: &str) -> (c: String)
    ensures
        c@ == prefix@ + arg@,
{
    let mut c = prefix.to_string();
    c.append(arg);
    c
}

/// The commands that set the module up for the B route: reset, report the
/// versions and settings, then the route B ID and password.
pub fn init_commands(b_route_id: &str, b_route_pass: &str) -> (cmds: Vec<String>)
    ensures
        views(cmds@) == seq!["SKRESET"@, "SKVER"@, "SKINFO"@, "SKAPPVER"@,
            "SKSETRBID "@ + b_route_id@, "SKSETPWD c "@ + b_route_pass@],
{
    let mut cmds: Vec<String> = Vec::new();
    cmds.push("SKRESET".to_string());
    cmds.push("SKVER".to_string());
    cmds.push("SKINFO".to_string());
    cmds.push("SKAPPVER".to_string());
    cmds.push(command_with("SKSETRBID ", b_route_id));
    cmds.push(command_with("SKSETPWD c ", b_route_pass));
    assert(views(cmds@) =~= seq!["SKRESET"@, "SKVER"@, "SKINFO"@, "SKAPPVER"@,
        "SKSETRBID "@ + b_route_id@, "SKSETPWD c "@ + b_route_pass@]);
    cmds
}

/// After the scan: the commands that select the meter's channel and PAN and
/// ask for its IPv6 link-local address.
pub fn meter_setup_commands(info: &MeterInfo) -> (cmds: Vec<String>)
    ensures
        views(cmds@) == seq!["SKSREG S2 "@ + info.channel@, "SKSREG S3 "@ + info.pan_id@,
            "SKLL64 "@ + info.meter_mac_addr@],
{
    let mut cmds: Vec<String> = Vec::new();
    cmds.push(command_with("SKSREG S2 ", info.channel.as_str()));
    cmds.push(command_with("SKSREG S3 ", info.pan_id.as_str()));
    cmds.push(command_with("SKLL64 ", info.meter_mac_addr.as_str()));
    assert(views(cmds@) =~= seq!["SKSREG S2 "@ + info.channel@, "SKSREG S3 "@ + info.pan_id@,
        "SKLL64 "@ + info.meter_mac_addr@]);
    cmds
}

/// The command that starts the PANA authentication with the meter.
pub fn join_command(info: &MeterInfo) -> (c: String)
    ensures
        c@ == "SKJOIN "@ + info.meter_ip6_addr@,
{
    command_with("SKJOIN ", info.meter_ip6_addr.as_str())
}

// ── Replies of the module ────────────────────────────────────────────────────

/// The last line of a command reply is `OK`.
pub fn wait_resp_command_ok(resp: &Vec<String>) -> (r: Result<(), ErrorKind>)
    requires
        resp@.len() > 0,
    ensures
        r is Ok <==> resp@[resp@.len() - 1]@ == seq!['O', 'K'],
        r is Err ==> r == Err::<(), ErrorKind>(ErrorKind::InvalidData),
{
    if is_ok_line(&resp[resp.len() - 1]) {
        Ok(())
    } else {
        Err(ErrorKind::InvalidData)
    }
}

fn is_ok_line(line: &String) -> (b: bool)
    ensures
        b == (line@ == seq!['O', 'K']),
{
    let cs = chars_of(line.as_str());
    let b = cs.len() == 2 && cs[0] == 'O' && cs[1] == 'K';
    proof {
        if b {
            assert(cs@ =~= seq!['O', 'K']);
        }
    }
    b
}

/// Some line of the batch is `OK`.
pub fn has_ok_line(lines: &Vec<String>) -> (b: bool)
    ensures
        b == exists|i: int| 0 <= i < lines@.len() && #[trigger] lines@[i]@ == seq!['O', 'K'],
{
    let mut i: usize = 0;
    while i < lines.len()
        invariant
            i <= lines@.len(),
            forall|k: int| 0 <= k < i ==> #[trigger] lines@[k]@ != seq!['O', 'K'],
        decreases lines.len() - i,
    {
        if is_ok_line(&lines[i]) {
            return true;
        }
        i = i + 1;
    }
    false
}

/// Some line of the batch reports EVENT 25 (the PANA session is established).
pub fn has_event25(lines: &Vec<String>) -> (b: bool)
    ensures
        b == exists|i: int| 0 <= i < lines@.len() && text::contains(#[trigger] lines@[i]@, event25_text()),
{
    let ev25 = ['E', 'V', 'E', 'N', 'T', ' ', '2', '5'];
    assert(ev25@ =~= event25_text());
    let mut i: usize = 0;
    while i < lines.len()
        invariant
            i <= lines@.len(),
            ev25@ == event25_text(),
            forall|k: int| 0 <= k < i ==> !text::contains(#[trigger] lines@[k]@, event25_text()),
        decreases lines.len() - i,
    {
        let cs = chars_of(lines[i].as_str());
        if contains_chars(cs.as_slice(), ev25.as_slice()) {
            return true;
        }
        i = i + 1;
    }
    false
}

// ── ERXUDP notifications ─────────────────────────────────────────────────────

/// The words of `cs`: the runs between spaces, empty runs left out.
#[verifier::opaque]
pub open spec fn tokens(cs: Seq<char>) -> Seq<Seq<char>>
    decreases cs.len(),
{
    match text::first_index_of(cs, ' ') {
        Some(i) => if 0 <= i < cs.len() {
            (if i > 0 { seq![cs.subrange(0, i)] } else { seq![] }) + tokens(cs.subrange(i + 1, cs.len() as int))
        } else {
            seq![]
        },
        None => if cs.len() > 0 { seq![cs] } else { seq![] },
    }
}

/// The words of the last line of the batch that reports ERXUDP (none if no line does).
pub open spec fn erxudp_params(lines: Seq<Seq<char>>) -> Seq<Seq<char>>
    decreases lines.len(),
{
    if lines.len() == 0 {
        seq![]
    } else if text::contains(lines.last(), erxudp_text()) {
        tokens(lines.last())
    } else {
        erxudp_params(lines.drop_last())
    }
}

proof fn lemma_tokens_of_spaced(cs: Seq<char>, i: int)
    requires
        0 <= i < cs.len(),
        cs[i] == ' ',
        forall|k: int| 0 <= k < i ==> cs[k] != ' ',
    ensures
        tokens(cs) == (if i > 0 { seq![cs.subrange(0, i)] } else { seq![] }) + tokens(cs.subrange(i + 1, cs.len() as int)),
{
    reveal(tokens);
    text::lemma_first_index_of_matches(cs, ' ');
    let f = text::first_index_of(cs, ' ');
    assert(f == Some(i)) by {
        let j = f->0;
        if j < i {} else if j > i {}
    }
}

proof fn lemma_tokens_of_unspaced(cs: Seq<char>)
    requires
        forall|k: int| 0 <= k < cs.len() ==> cs[k] != ' ',
    ensures
        tokens(cs) == (if cs.len() > 0 { seq![cs] } else { seq![] }),
{
    reveal(tokens);
    text::lemma_first_index_of_matches(cs, ' ');
}

/// Splits a line into its space-separated words.
pub fn split_words(line: &String) -> (words: Vec<String>)
    ensures
        views(words@) == tokens(line@),
{
    let cs = chars_of(line.as_str());
    let ghost full = cs@;
    let n = cs.len();
    let mut out: Vec<String> = Vec::new();
    let mut start: usize = 0;
    let mut i: usize = 0;
    assert(full.subrange(0, n as int) =~= full);
    assert(views(out@) + tokens(full) =~= tokens(full));
    while i < n
        invariant
            start <= i <= n == full.len(),
            full == cs@,
            forall|k: int| start <= k < i ==> full[k] != ' ',
            views(out@) + tokens(full.subrange(start as int, n as int)) == tokens(full),
        decreases n - i,
    {
        if cs[i] == ' ' {
            let ghost tail = full.subrange(start as int, n as int);
            proof {
                lemma_tokens_of_spaced(tail, i - start);
                assert(tail.subrange(0, i - start) =~= full.subrange(start as int, i as int));
                assert(tail.subrange(i - start + 1, tail.len() as int) =~= full.subrange(i + 1, n as int));
            }
            if start < i {
                let w = string_of(cs.as_slice(), start, i);
                let ghost before = views(out@);
                out.push(w);
                proof {
                    assert(views(out@) =~= before.push(full.subrange(start as int, i as int)));
                    assert(views(out@) + tokens(full.subrange(i + 1, n as int)) =~= before + (seq![full.subrange(start as int, i as int)] + tokens(full.subrange(i + 1, n as int))));
                }
            } else {
                assert(seq![] + tokens(full.subrange(i + 1, n as int)) =~= tokens(full.subrange(i + 1, n as int)));
            }
            start = i + 1;
        }
        i = i + 1;
    }
    let ghost tail = full.subrange(start as int, n as int);
    proof {
        lemma_tokens_of_unspaced(tail);
    }
    if start < n {
        let w = string_of(cs.as_slice(), start, n);
        let ghost before = views(out@);
        out.push(w);
        assert(views(out@) =~= before.push(tail));
        assert(views(out@) =~= before + seq![tail]);
    } else {
        assert(views(out@) + seq![] =~= views(out@));
    }
    out
}

/// The words of the last ERXUDP line of the batch; `Err` if there is none.
pub fn parse_erxudp(cmd: &Vec<String>) -> (r: Result<Vec<String>, ()>)
    ensures
        match r {
            Ok(params) => views(params@) == erxudp_params(views(cmd@)) && params@.len() > 0,
            Err(()) => erxudp_params(views(cmd@)).len() == 0,
        },
{
    let erx = ['E', 'R', 'X', 'U', 'D', 'P'];
    assert(erx@ =~= erxudp_text());
    let mut params: Vec<String> = Vec::new();
    let mut i: usize = 0;
    while i < cmd.len()
        invariant
            i <= cmd@.len(),
            erx@ == erxudp_text(),
            views(params@) == erxudp_params(views(cmd@).subrange(0, i as int)),
        decreases cmd.len() - i,
    {
        let ghost prefix = views(cmd@).subrange(0, i + 1);
        assert(prefix.drop_last() =~= views(cmd@).subrange(0, i as int));
        assert(prefix.last() == cmd@[i as int]@);
        let cs = chars_of(cmd[i].as_str());
        if contains_chars(cs.as_slice(), erx.as_slice()) {
            params = split_words(&cmd[i]);
        }
        i = i + 1;
    }
    assert(views(cmd@).subrange(0, cmd@.len() as int) =~= views(cmd@));
    if params.len() == 0 {
        return Err(());
    }
    Ok(params)
}

/// Characters `start ..= end` of `cs` (those that exist).
pub open spec fn extract_chars(cs: Seq<char>, start: int, end: int) -> Seq<char> {
    let lo = if start < cs.len() { start } else { cs.len() as int };
    let hi = if end + 1 < cs.len() { end + 1 } else { cs.len() as int };
    if lo < hi { cs.subrange(lo, hi) } else { seq![] }
}

/// The characters of `param` at positions `start ..= end`.
pub fn extract_str(param: &str, start: usize, end: usize) -> (s: String)
    ensures
        s@ == extract_chars(param@, start as int, end as int),
{
    let cs = chars_of(param);
    let n = cs.len();
    let lo = if start < n { start } else { n };
    let hi = if end < n { end + 1 } else { n };
    if lo < hi {
        string_of(cs.as_slice(), lo, hi)
    } else {
        String::new()
    }
}

/// Hexadecimal value of characters `start ..= end` of `cs`, as `from_str_radix` reads it.
pub open spec fn hex_field(cs: Seq<char>, start: int, end: int) -> Option<int> {
    text::parse_unsigned(extract_chars(cs, start, end), 16, 0xffff_ffff)
}

fn hex_field_exec(param: &str, start: usize, end: usize, max: u32) -> (r: Option<u32>)
    ensures
        r is Some <==> text::parse_unsigned(extract_chars(param@, start as int, end as int), 16, max as int) is Some,
        r matches Some(v) ==> text::parse_unsigned(extract_chars(param@, start as int, end as int), 16, max as int) == Some(v as int),
{
    let s = extract_str(param, start, end);
    let cs = chars_of(s.as_str());
    parse_unsigned_chars(cs.as_slice(), 16, max)
}

/// Instantaneous power reported in the UDP payload: the hexadecimal value of
/// characters 28..=35, accepted from 1 to 9999 W.
pub open spec fn spec_power_w(udp: Seq<char>) -> Result<u32, ErrorKind> {
    match hex_field(udp, 28, 35) {
        Some(v) => if 0 < v < 10000 { Ok(v as u32) } else { Err(ErrorKind::InvalidData) },
        None => Err(ErrorKind::InvalidData),
    }
}

/// Reads the instantaneous power (W) from an ECHONET Lite reply payload.
pub fn extract_power_w_from_udp(udp_cmd: &str) -> (r: Result<u32, ErrorKind>)
    ensures
        r == spec_power_w(udp_cmd@),
{
    match hex_field_exec(udp_cmd, 28, 35, 0xffff_ffff) {
        Some(v) => {
            if 0 < v && v < 10000 {
                Ok(v)
            } else {
                Err(ErrorKind::InvalidData)
            }
        },
        None => Err(ErrorKind::InvalidData),
    }
}

/// Sum of the R- and T-phase currents in the UDP payload, in tenths of an ampere:
/// the hexadecimal values of characters 28..=31 and 32..=35, a field that does
/// not parse counting as 0.
pub open spec fn current_units(udp: Seq<char>) -> int {
    (match hex_field(udp, 28, 31) { Some(v) => v, None => 0 })
        + (match hex_field(udp, 32, 35) { Some(v) => v, None => 0 })
}

/// A current sum is plausible between 0.1 A and 199.9 A.
pub open spec fn spec_check_current(units: int) -> Result<u32, ErrorKind> {
    if units == 0 || units >= 2000 { Err(ErrorKind::InvalidData) } else { Ok(units as u32) }
}

/// Refuses an implausible current sum (tenths of an ampere).
pub fn check_power_a_units(units: u32) -> (r: Result<u32, ErrorKind>)
    ensures
        r == spec_check_current(units as int),
{
    if 0 == units || 2000 <= units {
        return Err(ErrorKind::InvalidData);
    }
    Ok(units)
}

/// Four hexadecimal characters hold at most 0xFFFF.
proof fn lemma_hex4_bound(cs: Seq<char>, start: int)
    requires
        start >= 0,
        hex_field(cs, start, start + 3) is Some,
    ensures
        0 <= hex_field(cs, start, start + 3)->0 <= 0xffff,
{
    let ds = text::unsigned_digits(extract_chars(cs, start, start + 3));
    assert(ds.len() <= 4);
    lemma_digits_bound(ds);
    reveal_with_fuel(vstd::arithmetic::power::pow, 5);
    assert(vstd::arithmetic::power::pow(16, ds.len()) <= 0x10000);
}

proof fn lemma_digits_bound(ds: Seq<char>)
    requires
        text::all_digits(ds, 16),
    ensures
        0 <= text::digits_value(ds, 16) < vstd::arithmetic::power::pow(16, ds.len()),
    decreases ds.len(),
{
    vstd::arithmetic::power::lemma_pow_positive(16, ds.len());
    if ds.len() > 0 {
        let p = ds.drop_last();
        assert(text::all_digits(p, 16)) by {
            assert forall|i: int| 0 <= i < p.len() implies #[trigger] text::digit_value(p[i], 16) is Some by {
                assert(p[i] == ds[i]);
            }
        }
        assert(text::digit_value(ds.last(), 16) is Some) by {
            assert(ds.last() == ds[ds.len() - 1]);
        }
        lemma_digits_bound(p);
        let v = text::digits_value(p, 16);
        let d = text::digit_value(ds.last(), 16)->0;
        let q = vstd::arithmetic::power::pow(16, p.len());
        vstd::arithmetic::power::lemma_pow_adds(16, p.len(), 1);
        vstd::arithmetic::power::lemma_pow1(16);
        assert(v * 16 + d < q * 16) by (nonlinear_arith)
            requires 0 <= v < q, 0 <= d < 16;
        assert(v * 16 + d >= 0) by (nonlinear_arith)
            requires 0 <= v, 0 <= d;
    }
}

/// Reads the current sum (tenths of an ampere) from an ECHONET Lite reply
/// payload; the mean of the two phase currents in amperes is that over 20.
pub fn extract_power_a_units(udp_cmd: &str) -> (r: Result<u32, ErrorKind>)
    ensures
        r == spec_check_current(current_units(udp_cmd@)),
{
    let mut power_a: u32 = 0;
    proof {
        if hex_field(udp_cmd@, 28, 31) is Some {
            lemma_hex4_bound(udp_cmd@, 28);
        }
        if hex_field(udp_cmd@, 32, 35) is Some {
            lemma_hex4_bound(udp_cmd@, 32);
        }
    }
    match hex_field_exec(udp_cmd, 28, 31, 0xffff_ffff) {
        Some(v) => { power_a = v; },
        None => {},
    }
    match hex_field_exec(udp_cmd, 32, 35, 0xffff_ffff) {
        Some(v) => { power_a = power_a + v; },
        None => {},
    }
    check_power_a_units(power_a)
}

// ── Waiting for a reply ──────────────────────────────────────────────────────

/// Every ERXUDP line of the batch that is the last one carries a payload word.
pub open spec fn erxudp_well_formed(lines: Seq<Seq<char>>) -> bool {
    erxudp_params(lines).len() == 0 || erxudp_params(lines).len() >= 10
}

/// Whether the batch's ERXUDP line, if any, has its payload word (what the
/// reply readers need).
pub fn erxudp_complete(lines: &Vec<String>) -> (b: bool)
    ensures
        b == erxudp_well_formed(views(lines@)),
{
    match parse_erxudp(lines) {
        Err(()) => true,
        Ok(params) => params.len() >= 10,
    }
}

/// Power read from one batch of lines: none without an ERXUDP line; otherwise
/// the value of the payload (word 10), where a payload that does not parse
/// reads as 0 W.
pub fn erxudp_w_outcome(lines: &Vec<String>) -> (r: Option<Result<u32, ErrorKind>>)
    requires
        erxudp_well_formed(views(lines@)),
    ensures
        ({
            let params = erxudp_params(views(lines@));
            &&& params.len() == 0 ==> r is None
            &&& params.len() > 0 ==> r == Some(match hex_field(params[9], 28, 35) {
                Some(v) => if 0 < v < 10000 { Ok::<u32, ErrorKind>(v as u32) } else { Err(ErrorKind::InvalidData) },
                None => Ok(0u32),
            })
        }),
{
    match parse_erxudp(lines) {
        Err(()) => None,
        Ok(params) => {
            match hex_field_exec(params[9].as_str(), 28, 35, 0xffff_ffff) {
                Some(v) => if 0 < v && v < 10000 {
                    Some(Ok(v))
                } else {
                    Some(Err(ErrorKind::InvalidData))
                },
                None => Some(Ok(0)),
            }
        },
    }
}

/// Current sum (tenths of an ampere) read from one batch of lines: none without
/// an ERXUDP line; otherwise the sum in the payload (word 10).
pub fn erxudp_a_outcome(lines: &Vec<String>) -> (r: Option<u32>)
    requires
        erxudp_well_formed(views(lines@)),
    ensures
        ({
            let params = erxudp_params(views(lines@));
            &&& params.len() == 0 ==> r is None
            &&& params.len() > 0 ==> r == Some(current_units(params[9]) as u32)
            &&& params.len() > 0 ==> current_units(params[9]) <= 0x1fffe
        }),
{
    match parse_erxudp(lines) {
        Err(()) => None,
        Ok(params) => {
            let udp = params[9].as_str();
            let mut power_a: u32 = 0;
            proof {
                if hex_field(udp@, 28, 31) is Some {
                    lemma_hex4_bound(udp@, 28);
                }
                if hex_field(udp@, 32, 35) is Some {
                    lemma_hex4_bound(udp@, 32);
                }
            }
            match hex_field_exec(udp, 28, 31, 0xffff_ffff) {
                Some(v) => { power_a = v; },
                None => {},
            }
            match hex_field_exec(udp, 32, 35, 0xffff_ffff) {
                Some(v) => { power_a = power_a + v; },
                None => {},
            }
            Some(power_a)
        },
    }
}

/// The ECHONET Lite service code that a payload answers: characters 24..=25 in
/// hexadecimal, 0 if they do not parse.
pub open spec fn reply_code(udp: Seq<char>) -> int {
    match text::parse_unsigned(extract_chars(udp, 24, 25), 16, 0xff) {
        Some(v) => v,
        None => 0,
    }
}

/// The upper-case hexadecimal digit of `n` (0..=15), as the module writes it.
pub open spec fn hex_digit_char(n: int) -> char {
    if n < 10 { ((48 + n) as u32) as char } else { ((65 + n - 10) as u32) as char }
}

/// The reply code is the byte written by characters 24 and 25 in hexadecimal
/// (either case): the first is the high digit, the second the low digit. In
/// particular a payload that writes byte `b` there answers a request whose EPC
/// is `b`.
pub proof fn lemma_reply_code_is_hex_byte(udp: Seq<char>)
    requires
        udp.len() >= 26,
        text::digit_value(udp[24], 16) is Some,
        text::digit_value(udp[25], 16) is Some,
    ensures
        reply_code(udp) == text::digit_value(udp[24], 16)->0 * 16 + text::digit_value(udp[25], 16)->0,
        0 <= reply_code(udp) <= 0xff,
{
    let ds = extract_chars(udp, 24, 25);
    assert(ds =~= seq![udp[24], udp[25]]);
    let hi = text::digit_value(udp[24], 16)->0;
    let lo = text::digit_value(udp[25], 16)->0;
    assert(0 <= hi <= 15 && 0 <= lo <= 15);
    assert(text::unsigned_digits(ds) == ds);
    assert(ds.drop_last() =~= seq![udp[24]]);
    assert(seq![udp[24]].drop_last() =~= Seq::<char>::empty());
    assert(text::digits_value(Seq::<char>::empty(), 16) == 0);
    assert(text::digits_value(seq![udp[24]], 16) == hi);
    assert(text::digits_value(ds, 16) == hi * 16 + lo);
    assert(text::all_digits(ds, 16)) by {
        assert forall|i: int| 0 <= i < ds.len() implies #[trigger] text::digit_value(ds[i], 16) is Some by {
            if i == 0 {} else {}
        }
    }
}

/// A payload whose characters 24 and 25 are the upper-case hexadecimal digits
/// of the byte `b` has reply code `b`.
pub proof fn lemma_reply_code_of_written_byte(udp: Seq<char>, b: int)
    requires
        0 <= b <= 0xff,
        udp.len() >= 26,
        udp[24] == hex_digit_char(b / 16),
        udp[25] == hex_digit_char(b % 16),
    ensures
        reply_code(udp) == b,
{
    assert(text::digit_value(hex_digit_char(b / 16), 16) == Some(b / 16));
    assert(text::digit_value(hex_digit_char(b % 16), 16) == Some(b % 16));
    lemma_reply_code_is_hex_byte(udp);
}

/// The payload (word 10) of the batch's ERXUDP line, if it answers the request
/// `send_cmd` (whose EPC is byte 12).
pub fn erxudp_reply_for(lines: &Vec<String>, send_cmd: &[u8]) -> (r: Option<String>)
    requires
        erxudp_well_formed(views(lines@)),
        send_cmd@.len() > 12,
    ensures
        ({
            let params = erxudp_params(views(lines@));
            &&& r is Some <==> params.len() > 0 && reply_code(params[9]) == send_cmd@[12]
            &&& r matches Some(p) ==> p@ == params[9]
        }),
{
    match parse_erxudp(lines) {
        Err(()) => None,
        Ok(params) => {
            let code: u32 = match hex_field_exec(params[9].as_str(), 24, 25, 0xff) {
                Some(v) => v,
                None => 0,
            };
            if code == send_cmd[12] as u32 {
                Some(clone_string(&params[9]))
            } else {
                None
            }
        },
    }
}

/// Interval between two reads while waiting, in milliseconds.
pub const RETRY_INTERVAL_MS: u64 = 2000;

/// After `count` waits of two seconds, the time `time_ms` is used up.
pub fn retry_elapsed(count: u64, time_ms: u64) -> (b: bool)
    requires
        count <= u64::MAX / RETRY_INTERVAL_MS,
    ensures
        b == (time_ms < RETRY_INTERVAL_MS * count),
{
    time_ms < RETRY_INTERVAL_MS * count
}

// ── Sending ECHONET Lite frames ──────────────────────────────────────────────

/// The `SKSENDTO` command line that sends a frame to the meter at `ip6addr`
/// (handle 1, port 0x0E1A, security on, 14 data bytes).
pub open spec fn sendto_header(ip6addr: Seq<char>) -> Seq<char> {
    "SKSENDTO 1 "@ + ip6addr + " 0E1A 1 0 000E "@
}

/// The bytes written to send the ECHONET Lite frame `cmd` to `ip6addr`.
pub fn echonet_frame(ip6addr: &str, cmd: &[u8]) -> (bytes: Vec<u8>)
    ensures
        bytes@ == vstd::utf8::encode_utf8(sendto_header(ip6addr@)) + cmd@,
{
    let mut header = "SKSENDTO 1 ".to_string();
    header.append(ip6addr);
    header.append(" 0E1A 1 0 000E ");
    assert(header@ =~= sendto_header(ip6addr@));
    let mut bytes = vstd::slice::slice_to_vec(header.as_str().as_bytes());
    let mut i: usize = 0;
    let ghost head = bytes@;
    while i < cmd.len()
        invariant
            i <= cmd@.len(),
            bytes@ == head + cmd@.subrange(0, i as int),
        decreases cmd.len() - i,
    {
        bytes.push(cmd[i]);
        i = i + 1;
    }
    assert(cmd@.subrange(0, cmd@.len() as int) =~= cmd@);
    bytes
}

} // verus!
