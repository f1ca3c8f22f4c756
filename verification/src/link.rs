//! Waiting and buffering decisions of the display client's network exchanges:
//! joining Wi-Fi, the deadlines of the HTTP connection, sending and receiving,
//! the bounded reply buffer, and the wait for the NTP reply.

use vstd::prelude::*;
use crate::net::NetworkError;

verus! {

/// Time allowed for one Wi-Fi association attempt.
pub const WIFI_ASSOC_TIMEOUT_MS: u64 = 8000;
/// Pause after a failed association attempt.
pub const WIFI_RETRY_DELAY_MS: u32 = 1000;
/// Pause between checks of the association.
pub const WIFI_POLL_DELAY_MS: u32 = 100;
/// Time allowed to open the TCP connection, to send the request and to receive the reply.
pub const HTTP_CONNECT_TIMEOUT_MS: u64 = 15000;
pub const HTTP_SEND_TIMEOUT_MS: u64 = 15000;
pub const HTTP_RECV_TIMEOUT_MS: u64 = 15000;
/// Pause between polls of the TCP socket.
pub const HTTP_POLL_DELAY_MS: u32 = 5;
/// Most bytes of the HTTP reply kept.
pub const HTTP_REPLY_CAP: usize = 512;
/// Time allowed for the NTP reply, and the pause between polls for it.
pub const NTP_TIMEOUT_MS: u64 = 5000;
pub const NTP_POLL_DELAY_MS: u32 = 20;
/// Length of an NTP packet.
pub const NTP_PACKET_LEN: usize = 48;

/// The time after which a wait is given up.
#[derive(Debug, Clone, Copy, PartialEq, Eq, Structural)]
pub struct Deadline {
    pub at_ms: u64,
}

impl Deadline {
    /// The deadline `span_ms` after `start_ms`.
    pub fn after(start_ms: u64, span_ms: u64) -> (d: Deadline)
        requires
            start_ms + span_ms <= u64::MAX,
        ensures
            d.at_ms == start_ms + span_ms,
    {
        Deadline { at_ms: start_ms + span_ms }
    }

    /// The wait is over once the clock is past the deadline.
    pub fn passed(&self, now_ms: u64) -> (b: bool)
        ensures
            b == (now_ms > self.at_ms),
    {
        now_ms > self.at_ms
    }
}

/// What to do while waiting for something to happen before a deadline.
#[derive(Debug, Clone, Copy, PartialEq, Eq, Structural)]
pub enum WaitStep {
    /// It happened.
    Done,
    /// Pause, then check again.
    Wait,
    /// The deadline has passed.
    TimedOut,
}

/// Done as soon as the awaited thing has happened, else timed out once past
/// the deadline, else wait on.
pub open spec fn wait_step_spec(happened: bool, now_ms: u64, deadline: Deadline) -> WaitStep {
    if happened { WaitStep::Done } else if now_ms > deadline.at_ms { WaitStep::TimedOut } else { WaitStep::Wait }
}

/// One check of a wait: done as soon as the awaited thing has happened, else
/// timed out once past the deadline, else wait on. This is the rule of the
/// Wi-Fi association (8 s), of opening the TCP connection (15 s) and of the
/// NTP reply (5 s).
pub fn wait_step(happened: bool, now_ms: u64, deadline: Deadline) -> (s: WaitStep)
    ensures
        s == wait_step_spec(happened, now_ms, deadline),
{
    if happened {
        WaitStep::Done
    } else if deadline.passed(now_ms) {
        WaitStep::TimedOut
    } else {
        WaitStep::Wait
    }
}

/// Sending the request: done when all `total` bytes have gone, else timed out
/// once past the deadline, else wait and send more.
pub fn send_step(sent: usize, total: usize, now_ms: u64, deadline: Deadline) -> (s: WaitStep)
    requires
        sent <= total,
    ensures
        s == wait_step_spec(sent == total, now_ms, deadline),
{
    wait_step(sent == total, now_ms, deadline)
}

/// An NTP datagram is taken as the reply if it holds a whole packet.
pub fn ntp_reply_complete(len: usize) -> (b: bool)
    ensures
        b == (len >= NTP_PACKET_LEN),
{
    len >= NTP_PACKET_LEN
}

/// The HTTP reply received so far: `len` bytes, at most `HTTP_REPLY_CAP`.
#[derive(Debug, Clone, Copy, PartialEq, Eq, Structural)]
pub struct ReplyBuffer {
    pub len: usize,
}

/// What the receive loop does next.
#[derive(Debug, Clone, Copy, PartialEq, Eq, Structural)]
pub enum RecvStep {
    /// Keep receiving.
    Continue,
    /// Stop: the buffer is full, the server closed the connection, or time is up.
    Stop,
}

impl ReplyBuffer {
    pub fn new() -> (b: Self)
        ensures
            b.len == 0,
    {
        ReplyBuffer { len: 0 }
    }

    /// Room left in the buffer.
    pub fn room(&self) -> (n: usize)
        requires
            self.len <= HTTP_REPLY_CAP,
        ensures
            n == HTTP_REPLY_CAP - self.len,
    {
        HTTP_REPLY_CAP - self.len
    }

    /// Takes `n` received bytes (no more than the room left); receiving stops
    /// when the buffer is full.
    pub fn on_data(&mut self, n: usize) -> (s: RecvStep)
        requires
            old(self).len <= HTTP_REPLY_CAP,
            n <= HTTP_REPLY_CAP - old(self).len,
        ensures
            final(self).len == old(self).len + n,
            final(self).len <= HTTP_REPLY_CAP,
            s == (if final(self).len >= HTTP_REPLY_CAP { RecvStep::Stop } else { RecvStep::Continue }),
    {
        self.len = self.len + n;
        if self.len >= HTTP_REPLY_CAP { RecvStep::Stop } else { RecvStep::Continue }
    }

    /// With nothing queued: receiving stops once the server has closed the
    /// connection.
    pub fn on_idle(&self, may_recv: bool) -> (s: RecvStep)
        ensures
            s == (if may_recv { RecvStep::Continue } else { RecvStep::Stop }),
    {
        if may_recv { RecvStep::Continue } else { RecvStep::Stop }
    }

    /// After each poll: receiving stops once past the deadline, keeping what
    /// has arrived.
    pub fn on_clock(&self, now_ms: u64, deadline: Deadline) -> (s: RecvStep)
        ensures
            s == (if now_ms > deadline.at_ms { RecvStep::Stop } else { RecvStep::Continue }),
    {
        if deadline.passed(now_ms) { RecvStep::Stop } else { RecvStep::Continue }
    }

    /// The reply when receiving has stopped: its length, or `NoData` if nothing came.
    pub fn outcome(&self) -> (r: Result<usize, NetworkError>)
        ensures
            self.len == 0 ==> r == Err::<usize, NetworkError>(NetworkError::NoData),
            self.len > 0 ==> r == Ok::<usize, NetworkError>(self.len),
    {
        if self.len == 0 { Err(NetworkError::NoData) } else { Ok(self.len) }
    }
}

} // verus!
