//! Decisions of the display client's main loop and the texts it shows.

use vstd::prelude::*;
use crate::power::PowerLevel;
use crate::text;
use crate::text::{decimal_string, push_char};
use vstd::string::StrSliceExecFns;

verus! {

broadcast use vstd::string::group_string_axioms;

pub const MODE_POWER: u8 = 0;
pub const MODE_CLOCK: u8 = 1;
pub const MODE_PHOTO: u8 = 2;

pub const POWER_FETCH_INTERVAL_MS: u64 = 30000;
pub const NTP_SYNC_INTERVAL_MS: u64 = 3600000;
pub const NTP_RETRY_INTERVAL_MS: u64 = 30000;
pub const WIFI_RETRY_INTERVAL_MS: u64 = 15000;

// ── Screen state ─────────────────────────────────────────────────────────────

/// What the main loop remembers about the screen between iterations.
#[derive(Debug, Clone, Copy, PartialEq, Eq, Structural)]
pub struct ScreenState {
    pub prev_mode: u8,
    pub photo_idx: usize,
    pub photo_needs_draw: bool,
    pub photo_on_screen: bool,
    /// Level of the power image now on screen, if one is.
    pub power_img_level: Option<PowerLevel>,
}

impl ScreenState {
    /// The state at start-up: power mode, first photo, nothing drawn.
    pub fn new() -> (s: Self)
        ensures
            s.prev_mode == MODE_POWER,
            s.photo_idx == 0,
            !s.photo_needs_draw,
            !s.photo_on_screen,
            s.power_img_level is None,
    {
        ScreenState { prev_mode: MODE_POWER, photo_idx: 0, photo_needs_draw: false, photo_on_screen: false, power_img_level: None }
    }

    /// Follows a change of display mode: entering photo mode asks for a photo if
    /// the card has any, leaving it forgets the photo on screen, and entering
    /// power mode forces the power image to be drawn again.
    pub fn on_mode(&mut self, cur_mode: u8, sd_has_photos: bool)
        ensures
            old(self).prev_mode == cur_mode ==> *final(self) == *old(self),
            old(self).prev_mode != cur_mode ==> {
                &&& final(self).prev_mode == cur_mode
                &&& final(self).photo_idx == old(self).photo_idx
                &&& final(self).photo_needs_draw == (old(self).photo_needs_draw || (cur_mode == MODE_PHOTO && sd_has_photos))
                &&& final(self).photo_on_screen == (old(self).photo_on_screen && old(self).prev_mode != MODE_PHOTO)
                &&& final(self).power_img_level == (if cur_mode == MODE_POWER { None } else { old(self).power_img_level })
            },
    {
        if cur_mode != self.prev_mode {
            if cur_mode == MODE_PHOTO && sd_has_photos {
                self.photo_needs_draw = true;
            }
            if self.prev_mode == MODE_PHOTO {
                self.photo_on_screen = false;
            }
            if cur_mode == MODE_POWER {
                self.power_img_level = None;
            }
            self.prev_mode = cur_mode;
        }
    }

    /// Steps the slideshow forward (`next`) and/or back (`prev`) among `count` photos.
    pub fn navigate(&mut self, count: usize, next: bool, prev: bool)
        requires
            old(self).photo_idx < count || count == 0,
        ensures
            count == 0 ==> *final(self) == *old(self),
            count > 0 ==> {
                let after_next = if next { spec_photo_next(old(self).photo_idx as int, count as int) } else { old(self).photo_idx as int };
                let after_prev = if prev { spec_photo_prev(after_next, count as int) } else { after_next };
                &&& final(self).photo_idx == after_prev
                &&& final(self).photo_needs_draw == (old(self).photo_needs_draw || next || prev)
                &&& final(self).prev_mode == old(self).prev_mode
                &&& final(self).photo_on_screen == old(self).photo_on_screen
                &&& final(self).power_img_level == old(self).power_img_level
            },
            final(self).photo_idx < count || count == 0,
    {
        if count > 0 {
            if next {
                self.photo_idx = photo_next(self.photo_idx, count);
                self.photo_needs_draw = true;
            }
            if prev {
                self.photo_idx = photo_prev(self.photo_idx, count);
                self.photo_needs_draw = true;
            }
        }
    }

    /// Whether to draw the power image of `level` (it is not the one on screen).
    pub fn power_image_wanted(&self, level: PowerLevel) -> (b: bool)
        ensures
            b == (self.power_img_level != Some(level)),
    {
        match self.power_img_level {
            Some(shown) => !level_eq(shown, level),
            None => true,
        }
    }
}

impl ScreenState {
    /// Whether the photo is to be drawn now: one is asked for and photo mode is shown.
    pub fn photo_draw_wanted(&self, cur_mode: u8) -> (b: bool)
        ensures
            b == (self.photo_needs_draw && cur_mode == MODE_PHOTO),
    {
        self.photo_needs_draw && cur_mode == MODE_PHOTO
    }

    /// After an attempt to draw the photo: it is on screen if the attempt
    /// succeeded, and the request is served either way.
    pub fn on_photo_attempt(&mut self, drawn: bool)
        ensures
            final(self).photo_on_screen == (old(self).photo_on_screen || drawn),
            !final(self).photo_needs_draw,
            final(self).prev_mode == old(self).prev_mode,
            final(self).photo_idx == old(self).photo_idx,
            final(self).power_img_level == old(self).power_img_level,
    {
        if drawn {
            self.photo_on_screen = true;
        }
        self.photo_needs_draw = false;
    }

    /// The power image of `level` is now on screen.
    pub fn on_power_image_drawn(&mut self, level: PowerLevel)
        ensures
            *final(self) == (ScreenState { power_img_level: Some(level), ..*old(self) }),
    {
        self.power_img_level = Some(level);
    }
}

fn level_eq(a: PowerLevel, b: PowerLevel) -> (r: bool)
    ensures
        r == (a == b),
{
    a.index() == b.index()
}

pub open spec fn spec_photo_next(idx: int, count: int) -> int {
    (idx + 1) % count
}

pub open spec fn spec_photo_prev(idx: int, count: int) -> int {
    if idx == 0 { count - 1 } else { idx - 1 }
}

/// The photo after `idx`, wrapping round to the first.
pub fn photo_next(idx: usize, count: usize) -> (r: usize)
    requires
        idx < count,
    ensures
        r == spec_photo_next(idx as int, count as int),
        r < count,
{
    (idx + 1) % count
}

/// The photo before `idx`, wrapping round to the last.
pub fn photo_prev(idx: usize, count: usize) -> (r: usize)
    requires
        idx < count,
    ensures
        r == spec_photo_prev(idx as int, count as int),
        r < count,
{
    if idx == 0 { count - 1 } else { idx - 1 }
}

/// Going forward and then back, or back and then forward, returns to the same photo.
pub proof fn lemma_photo_next_prev_inverse(idx: int, count: int)
    requires
        0 <= idx < count,
    ensures
        spec_photo_prev(spec_photo_next(idx, count), count) == idx,
        spec_photo_next(spec_photo_prev(idx, count), count) == idx,
{
    if idx + 1 == count {
        vstd::arithmetic::div_mod::lemma_mod_self_0(count);
    } else {
        vstd::arithmetic::div_mod::lemma_small_mod((idx + 1) as nat, count as nat);
    }
    if idx == 0 {
        vstd::arithmetic::div_mod::lemma_mod_self_0(count);
    } else {
        vstd::arithmetic::div_mod::lemma_small_mod(idx as nat, count as nat);
    }
}

// ── What is due ──────────────────────────────────────────────────────────────

/// The power reading is fetched when forced or every 30 s.
pub fn fetch_due(force: bool, now_ms: u64, last_fetch_ms: u64) -> (b: bool)
    requires
        last_fetch_ms <= now_ms,
    ensures
        b == (force || now_ms - last_fetch_ms >= POWER_FETCH_INTERVAL_MS),
{
    force || now_ms - last_fetch_ms >= POWER_FETCH_INTERVAL_MS
}

/// The clock is synchronised at start and every hour, with at least 30 s
/// between attempts.
pub fn ntp_due(now_ms: u64, last_ntp_ms: u64, last_attempt_ms: u64) -> (b: bool)
    requires
        last_ntp_ms <= now_ms,
        last_attempt_ms <= now_ms,
    ensures
        b == ((last_ntp_ms == 0 || now_ms - last_ntp_ms >= NTP_SYNC_INTERVAL_MS)
            && (last_attempt_ms == 0 || now_ms - last_attempt_ms >= NTP_RETRY_INTERVAL_MS)),
{
    let due = last_ntp_ms == 0 || now_ms - last_ntp_ms >= NTP_SYNC_INTERVAL_MS;
    let retry_ok = last_attempt_ms == 0 || now_ms - last_attempt_ms >= NTP_RETRY_INTERVAL_MS;
    due && retry_ok
}

/// A missing Wi-Fi is reported at most every 15 s.
pub fn wifi_retry_due(now_ms: u64, last_retry_ms: u64) -> (b: bool)
    requires
        last_retry_ms <= now_ms,
    ensures
        b == (now_ms - last_retry_ms >= WIFI_RETRY_INTERVAL_MS),
{
    now_ms - last_retry_ms >= WIFI_RETRY_INTERVAL_MS
}

// ── Network schedule ─────────────────────────────────────────────────────────

/// How far the network is up.
#[derive(Debug, Clone, Copy, PartialEq, Eq, Structural)]
pub enum Link {
    /// Wi-Fi could not be brought up at start.
    Absent,
    /// Wi-Fi is up but DHCP has given no address (yet).
    NoAddress,
    /// An address is assigned.
    Ready,
}

/// What the loop does about the power reading in one iteration.
#[derive(Debug, Clone, Copy, PartialEq, Eq, Structural)]
pub enum FetchAction {
    /// Nothing to do.
    Idle,
    /// Ask the server for the power reading.
    FetchPower,
    /// Try to bring the Wi-Fi link back.
    Reconnect,
    /// Report that there is no Wi-Fi.
    ReportNoWifi,
}

/// The times (ms since start) at which the main loop last did its periodic work;
/// 0 stands for never.
#[derive(Debug, Clone, Copy, PartialEq, Eq, Structural)]
pub struct Schedule {
    pub last_fetch_ms: u64,
    pub last_ntp_ms: u64,
    pub last_ntp_attempt_ms: u64,
    pub last_wifi_retry_ms: u64,
}

/// The fetch of the power reading is due at `now_ms`.
pub open spec fn spec_fetch_due(s: Schedule, now_ms: u64, force: bool) -> bool {
    force || now_ms - s.last_fetch_ms >= POWER_FETCH_INTERVAL_MS
}

/// A clock synchronisation is due at `now_ms` over a ready link.
pub open spec fn spec_ntp_due(s: Schedule, now_ms: u64) -> bool {
    &&& (s.last_ntp_ms == 0 || now_ms - s.last_ntp_ms >= NTP_SYNC_INTERVAL_MS)
    &&& (s.last_ntp_attempt_ms == 0 || now_ms - s.last_ntp_attempt_ms >= NTP_RETRY_INTERVAL_MS)
}

/// The power action for a due fetch over `link`.
pub open spec fn spec_fetch_action(s: Schedule, now_ms: u64, link: Link) -> FetchAction {
    match link {
        Link::Ready => FetchAction::FetchPower,
        Link::NoAddress => FetchAction::Reconnect,
        Link::Absent => if now_ms - s.last_wifi_retry_ms >= WIFI_RETRY_INTERVAL_MS {
            FetchAction::ReportNoWifi
        } else {
            FetchAction::Idle
        },
    }
}

impl Schedule {
    /// Nothing done yet.
    pub fn new() -> (s: Self)
        ensures
            s == (Schedule { last_fetch_ms: 0, last_ntp_ms: 0, last_ntp_attempt_ms: 0, last_wifi_retry_ms: 0 }),
    {
        Schedule { last_fetch_ms: 0, last_ntp_ms: 0, last_ntp_attempt_ms: 0, last_wifi_retry_ms: 0 }
    }

    /// No recorded time lies after `now_ms` (the clock runs forward).
    pub open spec fn not_after(self, now_ms: u64) -> bool {
        &&& self.last_fetch_ms <= now_ms
        &&& self.last_ntp_ms <= now_ms
        &&& self.last_ntp_attempt_ms <= now_ms
        &&& self.last_wifi_retry_ms <= now_ms
    }

    /// Decides the power action of the iteration at `now_ms`: when the fetch is
    /// due (forced or 30 s after the last), the reading is fetched over a ready
    /// link, the link is retried without an address, and a missing Wi-Fi is
    /// reported at most every 15 s; the fetch time is then moved to `now_ms`.
    pub fn plan_fetch(&mut self, now_ms: u64, force: bool, link: Link) -> (a: FetchAction)
        requires
            old(self).not_after(now_ms),
        ensures
            !spec_fetch_due(*old(self), now_ms, force) ==> a == FetchAction::Idle && *final(self) == *old(self),
            spec_fetch_due(*old(self), now_ms, force) ==> {
                &&& a == spec_fetch_action(*old(self), now_ms, link)
                &&& final(self).last_fetch_ms == now_ms
                &&& final(self).last_wifi_retry_ms == (if a == FetchAction::ReportNoWifi { now_ms } else { old(self).last_wifi_retry_ms })
                &&& final(self).last_ntp_ms == old(self).last_ntp_ms
                &&& final(self).last_ntp_attempt_ms == old(self).last_ntp_attempt_ms
            },
            final(self).not_after(now_ms),
    {
        if !fetch_due(force, now_ms, self.last_fetch_ms) {
            return FetchAction::Idle;
        }
        let a = match link {
            Link::Ready => FetchAction::FetchPower,
            Link::NoAddress => FetchAction::Reconnect,
            Link::Absent => if wifi_retry_due(now_ms, self.last_wifi_retry_ms) {
                self.last_wifi_retry_ms = now_ms;
                FetchAction::ReportNoWifi
            } else {
                FetchAction::Idle
            },
        };
        self.last_fetch_ms = now_ms;
        a
    }

    /// Decides whether to synchronise the clock at `now_ms`: over a ready link,
    /// hourly (or at first), and not within 30 s of the last attempt. The
    /// attempt is recorded.
    pub fn plan_ntp(&mut self, now_ms: u64, link_ready: bool) -> (b: bool)
        requires
            old(self).not_after(now_ms),
        ensures
            b == (link_ready && spec_ntp_due(*old(self), now_ms)),
            *final(self) == (if b { Schedule { last_ntp_attempt_ms: now_ms, ..*old(self) } } else { *old(self) }),
            final(self).not_after(now_ms),
    {
        if link_ready && ntp_due(now_ms, self.last_ntp_ms, self.last_ntp_attempt_ms) {
            self.last_ntp_attempt_ms = now_ms;
            true
        } else {
            false
        }
    }

    /// The clock was synchronised at `now_ms`.
    pub fn on_ntp_synced(&mut self, now_ms: u64)
        requires
            old(self).not_after(now_ms),
        ensures
            *final(self) == (Schedule { last_ntp_ms: now_ms, ..*old(self) }),
            final(self).not_after(now_ms),
    {
        self.last_ntp_ms = now_ms;
    }
}

/// Unforced fetches of the power reading are at least 30 s apart: once a fetch
/// has been made at `at`, none is due before `at + 30 s`.
pub proof fn lemma_fetches_are_spaced(s: Schedule, at: u64, later: u64)
    requires
        s.last_fetch_ms == at,
        at <= later,
        later - at < POWER_FETCH_INTERVAL_MS,
    ensures
        !spec_fetch_due(s, later, false),
{
}

/// Attempts to synchronise the clock are at least 30 s apart, and after a
/// synchronisation at `at` the next is due only an hour later (a time of 0
/// stands for "never", so these hold for times after start).
pub proof fn lemma_ntp_attempts_are_spaced(s: Schedule, at: u64, later: u64)
    requires
        0 < at <= later,
    ensures
        s.last_ntp_attempt_ms == at && later - at < NTP_RETRY_INTERVAL_MS ==> !spec_ntp_due(s, later),
        s.last_ntp_ms == at && later - at < NTP_SYNC_INTERVAL_MS ==> !spec_ntp_due(s, later),
{
}

/// A missing Wi-Fi is reported at most every 15 s.
pub proof fn lemma_wifi_reports_are_spaced(s: Schedule, at: u64, later: u64)
    requires
        s.last_wifi_retry_ms == at,
        at <= later,
        later - at < WIFI_RETRY_INTERVAL_MS,
    ensures
        spec_fetch_action(s, later, Link::Absent) == FetchAction::Idle,
{
}

// ── Buttons ──────────────────────────────────────────────────────────────────

#[derive(Debug, Clone, Copy, PartialEq, Eq, Structural)]
pub enum KeyEdge {
    Unchanged,
    Pressed,
    Released,
}

/// What happened to a button between two reads (`true` = held down).
pub fn key_edge(prev: bool, cur: bool) -> (e: KeyEdge)
    ensures
        e == (if cur && !prev { KeyEdge::Pressed } else if !cur && prev { KeyEdge::Released } else { KeyEdge::Unchanged }),
{
    if cur && !prev {
        KeyEdge::Pressed
    } else if !cur && prev {
        KeyEdge::Released
    } else {
        KeyEdge::Unchanged
    }
}

// ── Texts ────────────────────────────────────────────────────────────────────

/// `n` with at least two digits, as `{:02}` writes it.
pub open spec fn pad2(n: nat) -> Seq<char> {
    if n < 10 { seq!['0'] + text::decimal(n) } else { text::decimal(n) }
}

/// Writes `n` with at least two digits.
pub fn two_digits(n: u32) -> (s: String)
    ensures
        s@ == pad2(n as nat),
{
    if n < 10 {
        let mut s = String::new();
        push_char(&mut s, '0');
        let d = decimal_string(n as u128);
        s.append(d.as_str());
        s
    } else {
        decimal_string(n as u128)
    }
}

/// A current in hundredths of an ampere, written "A.CC".
pub open spec fn spec_format_amps(ca: nat) -> Seq<char> {
    text::decimal(ca / 100) + seq!['.'] + pad2(ca % 100)
}

/// Writes a current given in hundredths of an ampere as amperes with two decimals.
pub fn format_amps(ca: u32) -> (s: String)
    ensures
        s@ == spec_format_amps(ca as nat),
{
    let mut s = decimal_string((ca / 100) as u128);
    push_char(&mut s, '.');
    let frac = two_digits(ca % 100);
    s.append(frac.as_str());
    s
}

/// "HH:MM".
pub fn format_hhmm(h: u8, m: u8) -> (s: String)
    ensures
        s@ == pad2(h as nat) + seq![':'] + pad2(m as nat),
{
    let mut s = two_digits(h as u32);
    push_char(&mut s, ':');
    let mm = two_digits(m as u32);
    s.append(mm.as_str());
    s
}

/// "HH:MM:SS".
pub fn format_hhmmss(h: u8, m: u8, sec: u8) -> (s: String)
    ensures
        s@ == pad2(h as nat) + seq![':'] + pad2(m as nat) + seq![':'] + pad2(sec as nat),
{
    let mut s = format_hhmm(h, m);
    push_char(&mut s, ':');
    let ss = two_digits(sec as u32);
    s.append(ss.as_str());
    s
}

/// `n` written with at least `width` digits, zeros in front, as `{:0width$}` does.
pub open spec fn zero_pad(n: nat, width: nat) -> Seq<char> {
    let d = text::decimal(n);
    if d.len() >= width { d } else { Seq::new((width - d.len()) as nat, |_i: int| '0') + d }
}

/// Writes `n` with at least `width` digits.
fn zero_padded(n: u32, width: usize) -> (s: String)
    ensures
        s@ == zero_pad(n as nat, width as nat),
{
    let d = decimal_string(n as u128);
    let len = d.as_str().unicode_len();
    let mut s = String::new();
    let mut k = len;
    while k < width
        invariant
            len == text::decimal(n as nat).len(),
            len <= k <= width || (k == len && len >= width),
            s@ == Seq::new((k - len) as nat, |_i: int| '0'),
        decreases width - k,
    {
        push_char(&mut s, '0');
        k = k + 1;
        assert(s@ =~= Seq::new((k - len) as nat, |_i: int| '0'));
    }
    s.append(d.as_str());
    assert(s@ =~= zero_pad(n as nat, width as nat));
    s
}

/// The year as `{:04}` writes it: a minus sign counts toward the width.
pub open spec fn year_text(y: int) -> Seq<char> {
    if y < 0 { seq!['-'] + zero_pad((-y) as nat, 3) } else { zero_pad(y as nat, 4) }
}

/// "YYYY/MM/DD".
pub fn format_date(y: i32, mo: u8, d: u8) -> (s: String)
    ensures
        s@ == year_text(y as int) + seq!['/'] + pad2(mo as nat) + seq!['/'] + pad2(d as nat),
{
    let mut s = if y < 0 {
        let mut t = String::new();
        push_char(&mut t, '-');
        let mag: u32 = if y == i32::MIN { 0x8000_0000u32 } else { (-y) as u32 };
        let p = zero_padded(mag, 3);
        t.append(p.as_str());
        t
    } else {
        zero_padded(y as u32, 4)
    };
    push_char(&mut s, '/');
    let mm = two_digits(mo as u32);
    s.append(mm.as_str());
    push_char(&mut s, '/');
    let dd = two_digits(d as u32);
    s.append(dd.as_str());
    s
}

/// The status line: Wi-Fi first, then whether a reading has arrived.
pub fn status_msg(wifi_connected: bool, data_valid: bool) -> (s: &'static str)
    ensures
        s@ == (if !wifi_connected { "No WiFi"@ } else if !data_valid { "Fetching..."@ } else { "OK"@ }),
{
    if !wifi_connected {
        "No WiFi"
    } else if !data_valid {
        "Fetching..."
    } else {
        "OK"
    }
}

/// The photo screen's label: the number of images, or why there are none.
pub fn photo_label(sd_ok: bool, file_count: u32) -> (s: String)
    ensures
        s@ == (if sd_ok && file_count > 0 {
            text::decimal(file_count as nat) + " images"@
        } else if sd_ok {
            "No BMP in /img"@
        } else {
            "No SD"@
        }),
{
    if sd_ok && file_count > 0 {
        let mut s = decimal_string(file_count as u128);
        s.append(" images");
        s
    } else if sd_ok {
        "No BMP in /img".to_string()
    } else {
        "No SD".to_string()
    }
}

/// Hours, minutes and seconds of uptime, shown until the clock is synchronised
/// (the hours are taken modulo 256, as `as u8` does).
pub fn uptime_clock(ms: u64) -> (r: (u8, u8, u8))
    ensures
        r.0 == ((ms / 3600000) as u8),
        r.1 == ms / 60000 % 60,
        r.2 == ms / 1000 % 60,
{
    let s = (ms / 1000 % 60) as u8;
    let m = (ms / 60_000 % 60) as u8;
    let h = (ms / 3_600_000) as u8;
    (h, m, s)
}

/// A digit string without a leading `+` reads back as its value.
proof fn lemma_decimal_parse(n: nat)
    requires
        n <= 0xffff_ffff,
    ensures
        text::parse_unsigned(text::decimal(n), 10, 0xffff_ffff) == Some(n as int),
        forall|i: int| 0 <= i < text::decimal(n).len() ==> '0' <= #[trigger] text::decimal(n)[i] <= '9',
{
    text::lemma_decimal_parses_back(n);
    let d = text::decimal(n);
    assert(text::unsigned_digits(d) == d);
    assert forall|i: int| 0 <= i < d.len() implies '0' <= #[trigger] d[i] <= '9' by {
        assert(text::digit_value(d[i], 10) is Some);
    }
}

/// The two characters of `pad2(r)` for `r < 100` read back as `r`.
proof fn lemma_pad2_parse(r: nat)
    requires
        r < 100,
    ensures
        pad2(r).len() == 2,
        (pad2(r)[0] as u32) < 0x80,
        (pad2(r)[1] as u32) < 0x80,
        text::parse_unsigned(pad2(r).subrange(0, 2), 10, 0xffff_ffff) == Some(r as int),
{
    let p = pad2(r);
    lemma_decimal_parse(r);
    if r < 10 {
        assert(text::decimal(r) == seq![text::digit_char(r as int)]);
        let ds = seq!['0', text::digit_char(r as int)];
        assert(p =~= ds);
        assert(p.subrange(0, 2) =~= ds);
        assert(text::unsigned_digits(ds) == ds);
        assert(ds.drop_last() =~= seq!['0']);
        assert(seq!['0'].drop_last() =~= Seq::<char>::empty());
        assert(text::digits_value(Seq::<char>::empty(), 10) == 0);
        assert(text::digits_value(seq!['0'], 10) == 0);
        assert(text::digit_value(text::digit_char(r as int), 10) == Some(r as int));
        assert(text::all_digits(ds, 10)) by {
            assert forall|i: int| 0 <= i < ds.len() implies #[trigger] text::digit_value(ds[i], 10) is Some by {
                if i == 0 {} else {}
            }
        }
        assert(text::digits_value(ds, 10) == r);
    } else {
        assert(text::decimal(r / 10) == seq![text::digit_char((r / 10) as int)]);
        assert(p.len() == 2);
        assert(p.subrange(0, 2) =~= p);
        assert('0' <= p[0] <= '9');
        assert('0' <= p[1] <= '9');
    }
}

/// A current written by `format_amps` is read back by `parse_decimal2` as the
/// same number of hundredths.
pub proof fn lemma_amps_text_reads_back(ca: u32)
    ensures
        crate::net::spec_parse_decimal2(spec_format_amps(ca as nat)) == crate::net::DecimalRead::Value(ca as int),
{
    let q = (ca / 100) as nat;
    let r = (ca % 100) as nat;
    let dq = text::decimal(q);
    let s = spec_format_amps(ca as nat);
    lemma_decimal_parse(q);
    lemma_pad2_parse(r);
    text::lemma_decimal_parses_back(q);
    let l = dq.len() as int;
    assert(s[l] == '.');
    assert forall|k: int| 0 <= k < l implies s[k] != '.' by {
        assert(s[k] == dq[k]);
    }
    text::lemma_first_index_of_matches(s, '.');
    let f = text::first_index_of(s, '.');
    assert(f == Some(l)) by {
        let j = f->0;
        if j < l {} else if j > l {}
    }
    assert(s.subrange(0, l) =~= dq);
    let frac = s.subrange(l + 1, s.len() as int);
    assert(frac =~= pad2(r));
    assert(crate::net::spec_fraction(frac) == crate::net::DecimalRead::Value(r as int));
}

} // verus!
