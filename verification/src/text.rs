//! Character-level helpers shared by the protocol parsers: numbers as Rust's
//! `str::parse` and `from_str_radix` read them, decimal formatting, searching.

use vstd::prelude::*;

verus! {

broadcast use vstd::string::group_string_axioms;

// ── Conversions between strings and characters ─────────────────────────────

/// The characters of `s`.
pub fn chars_of(s: &str) -> (v: Vec<char>)
    ensures
        v@ == s@,
{
    let mut v: Vec<char> = Vec::new();
    for c in it: s.chars()
        invariant
            v@ =~= it.seq().take(it.index() as int),
    {
        v.push(c);
    }
    v
}

/// `String::push`: appends one character.
#[verifier::external_body]
pub(crate) fn push_char(s: &mut String, c: char)
    ensures
        final(s)@ == old(s)@.push(c),
{
    s.push(c);
}

/// `std::str::from_utf8`: the text of `bytes` if they are valid UTF-8.
#[verifier::external_body]
pub(crate) fn str_from_utf8(bytes: &[u8]) -> (r: Option<&str>)
    ensures
        r is Some <==> vstd::utf8::valid_utf8(bytes@),
        r matches Some(s) ==> s@ == vstd::utf8::decode_utf8(bytes@),
{
    std::str::from_utf8(bytes).ok()
}

/// The string made of the characters `cs[from..to]`.
pub fn string_of(cs: &[char], from: usize, to: usize) -> (s: String)
    requires
        from <= to <= cs@.len(),
    ensures
        s@ == cs@.subrange(from as int, to as int),
{
    let mut s = String::new();
    let mut i = from;
    while i < to
        invariant
            from <= i <= to <= cs@.len(),
            s@ == cs@.subrange(from as int, i as int),
        decreases to - i,
    {
        push_char(&mut s, cs[i]);
        i = i + 1;
    }
    s
}

// ── Numbers ──────────────────────────────────────────────────────────────────

/// Value of `c` as a digit in base 10 or 16, as `char::to_digit` gives it.
pub open spec fn digit_value(c: char, radix: int) -> Option<int> {
    if '0' <= c && c <= '9' && (c as int) - ('0' as int) < radix {
        Some((c as int) - ('0' as int))
    } else if radix == 16 && 'a' <= c && c <= 'f' {
        Some((c as int) - ('a' as int) + 10)
    } else if radix == 16 && 'A' <= c && c <= 'F' {
        Some((c as int) - ('A' as int) + 10)
    } else {
        None
    }
}

pub open spec fn all_digits(cs: Seq<char>, radix: int) -> bool {
    forall|i: int| 0 <= i < cs.len() ==> #[trigger] digit_value(cs[i], radix) is Some
}

/// Value of the digit string `cs` in base `radix`.
pub open spec fn digits_value(cs: Seq<char>, radix: int) -> int
    decreases cs.len(),
{
    if cs.len() == 0 {
        0
    } else {
        digits_value(cs.drop_last(), radix) * radix + digit_value(cs.last(), radix)->0
    }
}

/// The digits that `from_str_radix` reads: an optional leading `+` is dropped
/// when something follows it.
pub open spec fn unsigned_digits(cs: Seq<char>) -> Seq<char> {
    if cs.len() > 1 && cs[0] == '+' {
        cs.drop_first()
    } else {
        cs
    }
}

/// What `str::parse` / `from_str_radix` give for an unsigned integer type whose
/// largest value is `max`: the value, or `None` for an empty string, a stray
/// character or a value above `max`.
pub open spec fn parse_unsigned(cs: Seq<char>, radix: int, max: int) -> Option<int> {
    let ds = unsigned_digits(cs);
    if ds.len() > 0 && all_digits(ds, radix) && digits_value(ds, radix) <= max {
        Some(digits_value(ds, radix))
    } else {
        None
    }
}

proof fn lemma_digits_value_nonneg(cs: Seq<char>, radix: int)
    requires
        all_digits(cs, radix),
        radix == 10 || radix == 16,
    ensures
        digits_value(cs, radix) >= 0,
    decreases cs.len(),
{
    if cs.len() > 0 {
        lemma_digits_value_nonneg(cs.drop_last(), radix);
        assert(digit_value(cs[cs.len() - 1], radix) is Some);
    }
}

/// Appending digits never lowers the value.
proof fn lemma_digits_value_grows(cs: Seq<char>, k: int, radix: int)
    requires
        0 <= k <= cs.len(),
        all_digits(cs, radix),
        radix == 10 || radix == 16,
    ensures
        digits_value(cs.subrange(0, k), radix) <= digits_value(cs, radix),
    decreases cs.len() - k,
{
    if k < cs.len() {
        lemma_digits_value_grows(cs, k + 1, radix);
        let p = cs.subrange(0, k + 1);
        assert(p.drop_last() =~= cs.subrange(0, k));
        assert(digit_value(p.last(), radix) is Some) by {
            assert(p.last() == cs[k]);
        }
        assert(all_digits(p.drop_last(), radix));
        lemma_digits_value_nonneg(p.drop_last(), radix);
        assert(digits_value(p.drop_last(), radix) * radix >= digits_value(p.drop_last(), radix)) by (nonlinear_arith)
            requires digits_value(p.drop_last(), radix) >= 0, radix >= 1;
    } else {
        assert(cs.subrange(0, k) =~= cs);
    }
}

fn digit_of(c: char, radix: u32) -> (r: Option<u32>)
    requires
        radix == 10 || radix == 16,
    ensures
        match digit_value(c, radix as int) {
            Some(v) => r == Some(v as u32),
            None => r is None,
        },
{
    if '0' <= c && c <= '9' {
        Some((c as u32) - ('0' as u32))
    } else if radix == 16 && 'a' <= c && c <= 'f' {
        Some((c as u32) - ('a' as u32) + 10)
    } else if radix == 16 && 'A' <= c && c <= 'F' {
        Some((c as u32) - ('A' as u32) + 10)
    } else {
        None
    }
}

/// Reads `cs` as an unsigned number in base `radix` that must not exceed `max`,
/// as `str::parse` / `from_str_radix` do for the unsigned type of that maximum.
pub fn parse_unsigned_chars(cs: &[char], radix: u32, max: u32) -> (r: Option<u32>)
    requires
        radix == 10 || radix == 16,
    ensures
        r is Some <==> parse_unsigned(cs@, radix as int, max as int) is Some,
        r matches Some(x) ==> parse_unsigned(cs@, radix as int, max as int) == Some(x as int) && x <= max,
{
    let n = cs.len();
    let start: usize = if n > 1 && cs[0] == '+' { 1 } else { 0 };
    let ghost ds = unsigned_digits(cs@);
    assert(ds =~= cs@.subrange(start as int, n as int));
    if start == n {
        return None;
    }
    let mut acc: u64 = 0;
    let mut i = start;
    while i < n
        invariant
            start <= i <= n == cs@.len(),
            ds == cs@.subrange(start as int, n as int),
            ds == unsigned_digits(cs@),
            ds.len() > 0,
            all_digits(ds.subrange(0, i - start), radix as int),
            acc as int == digits_value(ds.subrange(0, i - start), radix as int),
            acc <= max,
            radix == 10 || radix == 16,
        decreases n - i,
    {
        let prefix = Ghost(ds.subrange(0, i - start + 1));
        assert(prefix@.drop_last() =~= ds.subrange(0, i - start));
        assert(prefix@.last() == cs@[i as int]);
        match digit_of(cs[i], radix) {
            None => {
                proof {
                    assert(ds[i - start] == cs@[i as int]);
                    assert(!(digit_value(ds[i - start], radix as int) is Some));
                }
                return None;
            },
            Some(d) => {
                assert(acc * (radix as u64) + (d as u64) <= 0xffff_ffffu64 * 16 + 15) by (nonlinear_arith)
                    requires acc <= 0xffff_ffffu64, radix <= 16, d < 16;
                let next = acc * (radix as u64) + (d as u64);
                assert(digits_value(prefix@, radix as int) == next);
                assert(all_digits(prefix@, radix as int)) by {
                    assert forall|j: int| 0 <= j < prefix@.len() implies #[trigger] digit_value(prefix@[j], radix as int) is Some by {
                        if j < prefix@.len() - 1 {
                            assert(prefix@[j] == ds.subrange(0, i - start)[j]);
                        }
                    }
                }
                if next > max as u64 {
                    proof {
                        if all_digits(ds, radix as int) {
                            lemma_digits_value_grows(ds, i - start + 1, radix as int);
                        }
                    }
                    return None;
                }
                acc = next;
                i = i + 1;
            },
        }
    }
    assert(ds.subrange(0, n - start) =~= ds);
    Some(acc as u32)
}

// ── Decimal formatting ───────────────────────────────────────────────────────

pub open spec fn digit_char(d: int) -> char {
    if d == 0 { '0' } else if d == 1 { '1' } else if d == 2 { '2' } else if d == 3 { '3' }
    else if d == 4 { '4' } else if d == 5 { '5' } else if d == 6 { '6' } else if d == 7 { '7' }
    else if d == 8 { '8' } else { '9' }
}

/// Decimal representation of `n`, without leading zeros, as `to_string` / `{}` write it.
pub open spec fn decimal(n: nat) -> Seq<char>
    decreases n,
{
    if n < 10 {
        seq![digit_char(n as int)]
    } else {
        decimal(n / 10).push(digit_char((n % 10) as int))
    }
}

/// Writes `n` in decimal.
pub fn decimal_string(n: u128) -> (s: String)
    ensures
        s@ == decimal(n as nat),
    decreases n,
{
    if n < 10 {
        let mut s = String::new();
        push_char(&mut s, char_of_digit(n as u8));
        s
    } else {
        let mut s = decimal_string(n / 10);
        push_char(&mut s, char_of_digit((n % 10) as u8));
        s
    }
}

fn char_of_digit(d: u8) -> (c: char)
    requires
        d < 10,
    ensures
        c == digit_char(d as int),
{
    if d == 0 { '0' } else if d == 1 { '1' } else if d == 2 { '2' } else if d == 3 { '3' }
    else if d == 4 { '4' } else if d == 5 { '5' } else if d == 6 { '6' } else if d == 7 { '7' }
    else if d == 8 { '8' } else { '9' }
}

/// Reading back what `decimal` writes gives the number.
pub proof fn lemma_decimal_parses_back(n: nat)
    ensures
        decimal(n).len() > 0,
        all_digits(decimal(n), 10),
        digits_value(decimal(n), 10) == n,
        decimal(n)[0] != '+',
    decreases n,
{
    assert(digit_value(digit_char((n % 10) as int), 10) == Some((n % 10) as int));
    if n >= 10 {
        lemma_decimal_parses_back(n / 10);
        let s = decimal(n);
        assert(s.drop_last() =~= decimal(n / 10));
        assert forall|i: int| 0 <= i < s.len() implies #[trigger] digit_value(s[i], 10) is Some by {
            if i < s.len() - 1 {
                assert(s[i] == decimal(n / 10)[i]);
            }
        }
        assert(s[0] == decimal(n / 10)[0]);
        assert(s.last() == digit_char((n % 10) as int));
        assert(digits_value(s, 10) == digits_value(s.drop_last(), 10) * 10 + digit_value(s.last(), 10)->0);
        assert(digit_value(s.last(), 10)->0 == n % 10);
        assert(digits_value(s.drop_last(), 10) == n / 10);
        assert(digits_value(s, 10) == n);
    } else {
        let s = decimal(n);
        assert(s.drop_last() =~= Seq::<char>::empty());
        assert(s.last() == digit_char(n as int));
        assert(digit_value(digit_char(n as int), 10) == Some(n as int));
        assert(digits_value(s.drop_last(), 10) == 0);
        assert(digits_value(s, 10) == n);
    }
}

// ── Searching ────────────────────────────────────────────────────────────────

/// `needle` occurs in `hay` at position `i`.
pub open spec fn occurs_at(hay: Seq<char>, needle: Seq<char>, i: int) -> bool {
    0 <= i && i + needle.len() <= hay.len() && hay.subrange(i, i + needle.len()) == needle
}

pub open spec fn contains(hay: Seq<char>, needle: Seq<char>) -> bool {
    exists|i: int| occurs_at(hay, needle, i)
}

/// Whether `needle` occurs in `hay` (what `str::contains` / `find(..).is_some()` tell).
pub fn contains_chars(hay: &[char], needle: &[char]) -> (b: bool)
    ensures
        b == contains(hay@, needle@),
{
    let n = hay.len();
    let m = needle.len();
    if m > n {
        return false;
    }
    let mut i: usize = 0;
    while i < n - m
        invariant
            m <= n,
            i <= n - m,
            n == hay@.len(),
            m == needle@.len(),
            forall|k: int| 0 <= k < i ==> !occurs_at(hay@, needle@, k),
        decreases n - m - i,
    {
        if occurs_at_exec(hay, needle, i) {
            return true;
        }
        i = i + 1;
    }
    occurs_at_exec(hay, needle, n - m)
}

/// Whether `needle` occurs in `hay` at position `i`.
pub fn occurs_at_exec(hay: &[char], needle: &[char], i: usize) -> (b: bool)
    ensures
        b == occurs_at(hay@, needle@, i as int),
{
    if i > hay.len() || needle.len() > hay.len() - i {
        return false;
    }
    let hl = hay.len();
    let mut j: usize = 0;
    while j < needle.len()
        invariant
            hl == hay@.len(),
            i + needle@.len() <= hay@.len(),
            j <= needle@.len(),
            forall|k: int| 0 <= k < j ==> hay@[i + k] == needle@[k],
        decreases needle.len() - j,
    {
        assert(i + j < hay@.len());
        if hay[i + j] != needle[j] {
            assert(hay@.subrange(i as int, i + needle@.len())[j as int] != needle@[j as int]);
            return false;
        }
        j = j + 1;
    }
    assert(hay@.subrange(i as int, i + needle@.len()) =~= needle@);
    true
}

/// Index of the first `c` in `cs`.
pub open spec fn first_index_of(cs: Seq<char>, c: char) -> Option<int> {
    if exists|i: int| 0 <= i < cs.len() && cs[i] == c {
        Some(choose|i: int| 0 <= i < cs.len() && cs[i] == c && forall|k: int| 0 <= k < i ==> cs[k] != c)
    } else {
        None
    }
}

/// `first_index_of` is the first occurrence.
pub proof fn lemma_first_index_of_matches(cs: Seq<char>, c: char)
    ensures
        match first_index_of(cs, c) {
            Some(i) => 0 <= i < cs.len() && cs[i] == c && forall|k: int| 0 <= k < i ==> cs[k] != c,
            None => forall|k: int| 0 <= k < cs.len() ==> cs[k] != c,
        },
{
    if exists|i: int| 0 <= i < cs.len() && cs[i] == c {
        let w = choose|i: int| 0 <= i < cs.len() && cs[i] == c;
        lemma_least_index(cs, c, w);
    }
}

proof fn lemma_least_index(cs: Seq<char>, c: char, w: int)
    requires
        0 <= w < cs.len(),
        cs[w] == c,
    ensures
        exists|i: int| 0 <= i < cs.len() && cs[i] == c && forall|k: int| 0 <= k < i ==> cs[k] != c,
    decreases w,
{
    if exists|k: int| 0 <= k < w && cs[k] == c {
        let k = choose|k: int| 0 <= k < w && cs[k] == c;
        lemma_least_index(cs, c, k);
    } else {
        assert(forall|k: int| 0 <= k < w ==> cs[k] != c);
    }
}

pub fn find_char(cs: &[char], c: char) -> (r: Option<usize>)
    ensures
        match r {
            Some(i) => i < cs@.len() && cs@[i as int] == c && forall|k: int| 0 <= k < i ==> cs@[k] != c,
            None => forall|k: int| 0 <= k < cs@.len() ==> cs@[k] != c,
        },
{
    let mut i: usize = 0;
    while i < cs.len()
        invariant
            i <= cs@.len(),
            forall|k: int| 0 <= k < i ==> cs@[k] != c,
        decreases cs.len() - i,
    {
        if cs[i] == c {
            return Some(i);
        }
        i = i + 1;
    }
    None
}

pub fn rfind_char(cs: &[char], c: char) -> (r: Option<usize>)
    ensures
        match r {
            Some(i) => i < cs@.len() && cs@[i as int] == c && forall|k: int| i < k < cs@.len() ==> cs@[k] != c,
            None => forall|k: int| 0 <= k < cs@.len() ==> cs@[k] != c,
        },
{
    let mut i: usize = cs.len();
    while i > 0
        invariant
            i <= cs@.len(),
            forall|k: int| i <= k < cs@.len() ==> cs@[k] != c,
        decreases i,
    {
        if cs[i - 1] == c {
            return Some(i - 1);
        }
        i = i - 1;
    }
    None
}

} // verus!
