//! Lines exchanged with the Wi-SUN module over the serial port: commands go out
//! terminated by CR LF, and the bytes that come back are cut into CR LF lines.

use vstd::prelude::*;
use vstd::string::StringSliceAdditionalSpecFns;
use crate::text::str_from_utf8;

verus! {

broadcast use vstd::string::group_string_axioms;

pub open spec fn crlf_at(bs: Seq<u8>, k: int) -> bool {
    0 <= k && k + 1 < bs.len() && bs[k] == 0x0d && bs[k + 1] == 0x0a
}

/// The complete lines in `bs`: the text before each CR LF, empty lines left out.
/// Bytes after the last CR LF are not a line yet.
#[verifier::opaque]
pub open spec fn received_lines(bs: Seq<u8>) -> Seq<Seq<u8>>
    decreases bs.len(),
{
    if exists|k: int| crlf_at(bs, k) {
        let k = choose|k: int| crlf_at(bs, k) && forall|j: int| 0 <= j < k ==> !crlf_at(bs, j);
        let rest = if 0 <= k && k + 2 <= bs.len() { received_lines(bs.subrange(k + 2, bs.len() as int)) } else { seq![] };
        if k > 0 {
            seq![bs.subrange(0, k)] + rest
        } else {
            rest
        }
    } else {
        seq![]
    }
}

/// Length of the longest prefix of `bs` that is valid UTF-8.
pub open spec fn valid_prefix_len(bs: Seq<u8>) -> int {
    choose|l: int| 0 <= l <= bs.len() && vstd::utf8::valid_utf8(bs.take(l))
        && forall|l2: int| l < l2 <= bs.len() ==> !vstd::utf8::valid_utf8(#[trigger] bs.take(l2))
}

/// The text of a received line: its longest valid UTF-8 prefix, decoded.
pub open spec fn line_text(bs: Seq<u8>) -> Seq<char> {
    vstd::utf8::decode_utf8(bs.take(valid_prefix_len(bs)))
}

proof fn lemma_valid_prefix_len(bs: Seq<u8>, l: int)
    requires
        0 <= l <= bs.len(),
        vstd::utf8::valid_utf8(bs.take(l)),
        forall|l2: int| l < l2 <= bs.len() ==> !vstd::utf8::valid_utf8(#[trigger] bs.take(l2)),
    ensures
        valid_prefix_len(bs) == l,
{
    let c = valid_prefix_len(bs);
    assert(0 <= c <= bs.len() && vstd::utf8::valid_utf8(bs.take(c)));
    if c < l {
        assert(!vstd::utf8::valid_utf8(bs.take(l)));
    } else if c > l {
        assert(!vstd::utf8::valid_utf8(bs.take(c)));
    }
}

/// Length of the longest prefix of `cmd` that is valid UTF-8.
fn valid_prefix(cmd: &[u8]) -> (len: usize)
    ensures
        len == valid_prefix_len(cmd@),
        len <= cmd@.len(),
        vstd::utf8::valid_utf8(cmd@.take(len as int)),
{
    let n = cmd.len();
    let mut i: usize = 0;
    while i < n
        invariant
            i <= n == cmd@.len(),
            forall|l2: int| n - i < l2 <= n ==> !vstd::utf8::valid_utf8(#[trigger] cmd@.take(l2)),
        decreases n - i,
    {
        let prefix = vstd::slice::slice_subrange(cmd, 0, n - i);
        assert(prefix@ =~= cmd@.take(n - i));
        if str_from_utf8(prefix).is_some() {
            proof {
                lemma_valid_prefix_len(cmd@, n - i);
            }
            return n - i;
        }
        i = i + 1;
    }
    proof {
        assert(cmd@.take(0) =~= Seq::<u8>::empty());
        lemma_valid_prefix_len(cmd@, 0);
    }
    0
}

/// Cuts a received line to its longest valid UTF-8 prefix.
pub fn get_one_line_from_cmdbytes(cmd: &[u8]) -> (s: String)
    ensures
        s@ == line_text(cmd@),
{
    let len = valid_prefix(cmd);
    let found = vstd::slice::slice_subrange(cmd, 0, len);
    assert(found@ =~= cmd@.take(len as int));
    match str_from_utf8(found) {
        Some(text) => text.to_string(),
        None => String::new(),
    }
}

/// The complete lines in a received buffer, each cut to valid UTF-8.
pub fn parse_received_data(buf: &[u8]) -> (lines: Vec<String>)
    ensures
        lines@.len() == received_lines(buf@).len(),
        forall|i: int| 0 <= i < lines@.len() ==> #[trigger] lines@[i]@ == line_text(received_lines(buf@)[i]),
{
    let n = buf.len();
    let ghost bs = buf@;
    let mut out: Vec<String> = Vec::new();
    let ghost mut segs: Seq<Seq<u8>> = seq![];
    let mut start: usize = 0;
    let mut index: usize = 1;
    assert(bs.subrange(0, n as int) =~= bs);
    assert(segs + received_lines(bs) =~= received_lines(bs));
    while index < n
        invariant
            1 <= index,
            n == bs.len(),
            bs == buf@,
            start <= index,
            start <= n,
            start == 0 || bs[start - 1] == 0x0a,
            forall|k: int| start <= k < index - 1 ==> !crlf_at(bs, k),
            segs + received_lines(bs.subrange(start as int, n as int)) == received_lines(bs),
            out@.len() == segs.len(),
            forall|i: int| 0 <= i < out@.len() ==> #[trigger] out@[i]@ == line_text(segs[i]),
        decreases n - index,
    {
        if buf[index] == 0x0a && buf[index - 1] == 0x0d {
            let k = index - 1;
            assert(crlf_at(bs, k as int));
            let ghost tail = bs.subrange(start as int, n as int);
            proof {
                assert forall|j: int| 0 <= j < k - start implies !crlf_at(tail, j) by {
                    if crlf_at(tail, j) {
                        assert(crlf_at(bs, start + j));
                    }
                }
                assert(crlf_at(tail, k - start));
                lemma_first_crlf(tail, k - start);
                assert(tail.subrange(k - start + 2, tail.len() as int) =~= bs.subrange(index + 1, n as int));
                assert(tail.subrange(0, k - start) =~= bs.subrange(start as int, k as int));
            }
            if start < k {
                let line = vstd::slice::slice_subrange(buf, start, k);
                let text = get_one_line_from_cmdbytes(line);
                out.push(text);
                proof {
                    segs = segs.push(bs.subrange(start as int, k as int));
                    assert(segs.drop_last() + seq![bs.subrange(start as int, k as int)] + received_lines(bs.subrange(index + 1, n as int)) =~= segs + received_lines(bs.subrange(index + 1, n as int)));
                }
            }
            start = index + 1;
        }
        index = index + 1;
    }
    proof {
        let tail = bs.subrange(start as int, n as int);
        assert forall|k: int| !crlf_at(tail, k) by {
            if crlf_at(tail, k) {
                assert(crlf_at(bs, start + k));
            }
        }
        lemma_no_crlf(tail);
        assert(segs + received_lines(tail) =~= segs);
    }
    out
}

proof fn lemma_no_crlf(bs: Seq<u8>)
    requires
        forall|k: int| !crlf_at(bs, k),
    ensures
        received_lines(bs) == Seq::<Seq<u8>>::empty(),
{
    reveal(received_lines);
}

/// The first CR LF in `bs` is at `k`, and the lines of `bs` are the text before
/// it (when not empty) followed by the lines after it.
proof fn lemma_first_crlf(bs: Seq<u8>, k: int)
    requires
        crlf_at(bs, k),
        forall|j: int| 0 <= j < k ==> !crlf_at(bs, j),
    ensures
        received_lines(bs) == (if k > 0 { seq![bs.subrange(0, k)] } else { seq![] })
            + received_lines(bs.subrange(k + 2, bs.len() as int)),
{
    reveal(received_lines);
    let c = choose|c: int| crlf_at(bs, c) && forall|j: int| 0 <= j < c ==> !crlf_at(bs, j);
    assert(c == k) by {
        if c < k {} else if c > k {}
    }
    if k == 0 {
        assert(seq![] + received_lines(bs.subrange(k + 2, bs.len() as int)) =~= received_lines(bs.subrange(k + 2, bs.len() as int)));
    }
}

/// A line of valid UTF-8 without CR LF in it, sent with CR LF after it, is read
/// back as exactly that one line, in full.
pub proof fn lemma_framed_line_reads_back(line: Seq<u8>)
    requires
        line.len() > 0,
        vstd::utf8::valid_utf8(line),
        forall|k: int| !crlf_at(line, k),
    ensures
        received_lines(line + seq![0x0du8, 0x0au8]) == seq![line],
        line_text(line) == vstd::utf8::decode_utf8(line),
{
    let bs = line + seq![0x0du8, 0x0au8];
    let n = line.len() as int;
    assert(crlf_at(bs, n));
    assert forall|j: int| 0 <= j < n implies !crlf_at(bs, j) by {
        if crlf_at(bs, j) {
            if j + 1 < n {
                assert(crlf_at(line, j));
            } else {
                assert(bs[j + 1] == 0x0du8);
            }
        }
    }
    lemma_first_crlf(bs, n);
    assert(bs.subrange(0, n) =~= line);
    let rest = bs.subrange(n + 2, bs.len() as int);
    assert(rest =~= Seq::<u8>::empty());
    lemma_no_crlf(rest);
    assert(seq![line] + Seq::<Seq<u8>>::empty() =~= seq![line]);
    assert(line.take(n) =~= line);
    lemma_valid_prefix_len(line, n);
}

/// A command of ASCII text without CR LF in it, framed by `frame_command`, is
/// read back by `parse_received_data` as that command.
pub proof fn lemma_framed_command_reads_back(cmd: Seq<char>)
    requires
        cmd.len() > 0,
        vstd::utf8::is_ascii_chars(cmd),
        forall|k: int| 0 <= k < cmd.len() - 1 ==> !(#[trigger] cmd[k] == '\r' && cmd[k + 1] == '\n'),
    ensures
        received_lines(vstd::utf8::encode_utf8(cmd) + seq![0x0du8, 0x0au8]) == seq![vstd::utf8::encode_utf8(cmd)],
        line_text(vstd::utf8::encode_utf8(cmd)) == cmd,
{
    let line = vstd::utf8::encode_utf8(cmd);
    vstd::utf8::is_ascii_chars_encode_utf8(cmd);
    vstd::utf8::encode_utf8_valid_utf8(cmd);
    vstd::utf8::encode_utf8_decode_utf8(cmd);
    assert(line =~= Seq::new(cmd.len(), |i| cmd[i] as u8));
    assert forall|k: int| !crlf_at(line, k) by {
        if crlf_at(line, k) {
            assert(cmd[k] as u8 == 0x0d && cmd[k + 1] as u8 == 0x0a);
            assert((cmd[k] as u32) < 0x80 && (cmd[k + 1] as u32) < 0x80);
            assert(cmd[k] == '\r' && cmd[k + 1] == '\n');
        }
    }
    lemma_framed_line_reads_back(line);
}

/// The bytes of `lines`, each followed by CR LF.
pub open spec fn framed_lines(lines: Seq<Seq<u8>>) -> Seq<u8>
    decreases lines.len(),
{
    if lines.len() == 0 {
        seq![]
    } else {
        lines[0] + seq![0x0du8, 0x0au8] + framed_lines(lines.drop_first())
    }
}

/// Lines sent one after the other, each non-empty, without CR LF in it and
/// followed by CR LF, and then a tail without CR LF (a reply still arriving),
/// are read back as exactly those lines; the tail is not a line yet. A line of
/// valid UTF-8 reads back as its text in full.
pub proof fn lemma_framed_lines_read_back(lines: Seq<Seq<u8>>, tail: Seq<u8>)
    requires
        forall|i: int| 0 <= i < lines.len() ==> (#[trigger] lines[i]).len() > 0,
        forall|i: int, k: int| 0 <= i < lines.len() ==> !#[trigger] crlf_at(lines[i], k),
        forall|k: int| !crlf_at(tail, k),
    ensures
        received_lines(framed_lines(lines) + tail) == lines,
        forall|i: int| 0 <= i < lines.len() && vstd::utf8::valid_utf8(#[trigger] lines[i])
            ==> line_text(lines[i]) == vstd::utf8::decode_utf8(lines[i]),
    decreases lines.len(),
{
    if lines.len() == 0 {
        assert(framed_lines(lines) + tail =~= tail);
        lemma_no_crlf(tail);
        assert(received_lines(tail) =~= lines);
    } else {
        let line = lines[0];
        let rest = lines.drop_first();
        assert forall|i: int| 0 <= i < rest.len() implies (#[trigger] rest[i]).len() > 0 by {
            assert(rest[i] == lines[i + 1]);
        }
        assert forall|i: int, k: int| 0 <= i < rest.len() implies !#[trigger] crlf_at(rest[i], k) by {
            assert(rest[i] == lines[i + 1]);
        }
        lemma_framed_lines_read_back(rest, tail);
        let after = framed_lines(rest) + tail;
        let bs = framed_lines(lines) + tail;
        let n = line.len() as int;
        assert(bs =~= line + seq![0x0du8, 0x0au8] + after);
        assert(crlf_at(bs, n));
        assert forall|j: int| 0 <= j < n implies !crlf_at(bs, j) by {
            if crlf_at(bs, j) {
                if j + 1 < n {
                    assert(!crlf_at(lines[0], j));
                    assert(crlf_at(line, j));
                } else {
                    assert(bs[j + 1] == 0x0du8);
                }
            }
        }
        lemma_first_crlf(bs, n);
        assert(bs.subrange(0, n) =~= line);
        assert(bs.subrange(n + 2, bs.len() as int) =~= after);
        assert(seq![line] + rest =~= lines);
    }
    assert forall|i: int| 0 <= i < lines.len() && vstd::utf8::valid_utf8(#[trigger] lines[i])
        implies line_text(lines[i]) == vstd::utf8::decode_utf8(lines[i]) by {
        let l = lines[i];
        assert(l.take(l.len() as int) =~= l);
        lemma_valid_prefix_len(l, l.len() as int);
    }
}

// ── Framing outgoing data ────────────────────────────────────────────────────

/// A text command as written to the port: its UTF-8 bytes and CR LF.
pub fn frame_command(cmd: &str) -> (bytes: Vec<u8>)
    ensures
        bytes@ == cmd.spec_bytes() + seq![0x0du8, 0x0au8],
{
    let mut bytes = vstd::slice::slice_to_vec(cmd.as_bytes());
    bytes.push(0x0d);
    bytes.push(0x0a);
    bytes
}

// ── Receiving ────────────────────────────────────────────────────────────────

/// Retries after a read timeout before giving up.
pub const MAX_RETRY_ATTEMPTS: u32 = 3;
/// Reads without a CR LF at the end before giving up.
pub const MAX_READ_ATTEMPTS: u32 = 100;

/// `lines` holds the received lines of `bs`, as `parse_received_data` gives them.
pub open spec fn holds_lines_of(lines: Seq<String>, bs: Seq<u8>) -> bool {
    &&& lines.len() == received_lines(bs).len()
    &&& forall|i: int| 0 <= i < lines.len() ==> #[trigger] lines[i]@ == line_text(received_lines(bs)[i])
}

/// What the reader does next.
pub enum RxStep {
    /// Read again.
    Continue,
    /// The reply is complete: these are its lines.
    Complete(Vec<String>),
    /// Reset the port, then take these lines (what had arrived before a timeout).
    ResetThenComplete(Vec<String>),
    /// Reset the port, then start reading again from nothing.
    ResetThenRetry,
    /// Nothing arrived and the retries are used up.
    TimedOut,
    /// Too many reads without the reply ending in CR LF.
    TooManyReads,
}

/// A reply being read from the port: the bytes so far, the reads since the last
/// start, and the timeouts retried.
pub struct RxState {
    pub buf: Vec<u8>,
    pub attempts: u32,
    pub retry: u32,
}

pub open spec fn ends_with_crlf(bs: Seq<u8>) -> bool {
    bs.len() >= 2 && bs[bs.len() - 2] == 0x0d && bs[bs.len() - 1] == 0x0a
}

impl RxState {
    pub fn new() -> (s: Self)
        ensures
            s.buf@.len() == 0,
            s.attempts == 0,
            s.retry == 0,
    {
        RxState { buf: Vec::new(), attempts: 0, retry: 0 }
    }

    /// Takes the bytes of one read. A reply is complete when the bytes so far
    /// end in CR LF; after more than `MAX_READ_ATTEMPTS` reads it is abandoned.
    pub fn on_read(&mut self, data: &[u8]) -> (r: RxStep)
        requires
            old(self).attempts <= MAX_READ_ATTEMPTS,
        ensures
            final(self).buf@ == old(self).buf@ + data@,
            final(self).retry == old(self).retry,
            data@.len() > 0 && ends_with_crlf(final(self).buf@) ==> (r matches RxStep::Complete(lines)
                && holds_lines_of(lines@, final(self).buf@) && final(self).attempts == old(self).attempts),
            !(data@.len() > 0 && ends_with_crlf(final(self).buf@)) ==> {
                &&& final(self).attempts == old(self).attempts + 1
                &&& r is TooManyReads <==> final(self).attempts > MAX_READ_ATTEMPTS
                &&& r is Continue <==> final(self).attempts <= MAX_READ_ATTEMPTS
            },
    {
        let mut i: usize = 0;
        let ghost start = self.buf@;
        while i < data.len()
            invariant
                i <= data@.len(),
                self.buf@ == start + data@.subrange(0, i as int),
                self.attempts == old(self).attempts,
                self.retry == old(self).retry,
            decreases data.len() - i,
        {
            self.buf.push(data[i]);
            i = i + 1;
        }
        assert(data@.subrange(0, data@.len() as int) =~= data@);
        let n = self.buf.len();
        if data.len() > 0 && n >= 2 && self.buf[n - 2] == 0x0d && self.buf[n - 1] == 0x0a {
            let lines = parse_received_data(self.buf.as_slice());
            return RxStep::Complete(lines);
        }
        self.attempts = self.attempts + 1;
        if self.attempts > MAX_READ_ATTEMPTS {
            RxStep::TooManyReads
        } else {
            RxStep::Continue
        }
    }

    /// Handles a read timeout: while retries remain, the port is reset and what
    /// has arrived is taken, or the read starts again; after that, what has
    /// arrived is taken, and if nothing has, the read times out.
    pub fn on_timeout(&mut self) -> (r: RxStep)
        requires
            old(self).retry <= MAX_RETRY_ATTEMPTS,
        ensures
            old(self).retry < MAX_RETRY_ATTEMPTS && old(self).buf@.len() > 0 ==> (r matches RxStep::ResetThenComplete(lines)
                && holds_lines_of(lines@, old(self).buf@)),
            old(self).retry < MAX_RETRY_ATTEMPTS && old(self).buf@.len() == 0 ==> (r is ResetThenRetry
                && final(self).buf@.len() == 0 && final(self).attempts == 0 && final(self).retry == old(self).retry + 1),
            old(self).retry >= MAX_RETRY_ATTEMPTS && old(self).buf@.len() == 0 ==> r is TimedOut,
            old(self).retry >= MAX_RETRY_ATTEMPTS && old(self).buf@.len() > 0 ==> (r matches RxStep::Complete(lines)
                && holds_lines_of(lines@, old(self).buf@)),
    {
        if self.retry < MAX_RETRY_ATTEMPTS {
            if self.buf.len() > 0 {
                let lines = parse_received_data(self.buf.as_slice());
                RxStep::ResetThenComplete(lines)
            } else {
                self.buf = Vec::new();
                self.attempts = 0;
                self.retry = self.retry + 1;
                RxStep::ResetThenRetry
            }
        } else if self.buf.len() == 0 {
            RxStep::TimedOut
        } else {
            let lines = parse_received_data(self.buf.as_slice());
            RxStep::Complete(lines)
        }
    }
}

} // verus!
