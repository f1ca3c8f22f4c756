//! Choosing the time range and bucket width of a power-history query.

use vstd::prelude::*;

verus! {

broadcast use vstd::string::group_string_axioms;

/// Finest bucket width, in seconds.
pub const MIN_STEP_SEC: i64 = 60;
/// Longest range that can be queried: 90 days, in seconds.
pub const MAX_DURATION_SEC: i64 = 7776000;
/// Most buckets one query may return.
pub const MAX_POINTS: i64 = 2500;

/// A query over `[from, to]` (Unix seconds) averaged into buckets of `step` seconds.
#[derive(Debug, Clone, PartialEq, Eq, Structural)]
pub struct HistoryRange {
    pub from: i64,
    pub to: i64,
    pub step: i64,
}

/// Default bucket width for a range of `duration` seconds: one minute up to a day,
/// five minutes up to a week, an hour beyond.
pub open spec fn spec_auto_step(duration: int) -> int {
    if duration <= 24 * 3600 {
        60
    } else if duration <= 7 * 24 * 3600 {
        300
    } else {
        3600
    }
}

/// The range that `resolve_range` chooses once the end of the range is known.
pub open spec fn spec_resolve_range(from: Option<i64>, to: i64, step: Option<i64>) -> Result<HistoryRange, Seq<char>> {
    let f: int = match from {
        Some(f) => f as int,
        None => to - 24 * 3600,
    };
    let duration = to - f;
    if f >= to {
        Err("from must be less than to"@)
    } else if duration > MAX_DURATION_SEC {
        Err("range exceeds 90 days"@)
    } else {
        let s: int = match step {
            Some(s) => s as int,
            None => spec_auto_step(duration),
        };
        if s < MIN_STEP_SEC {
            Err("step must be at least 60 seconds"@)
        } else if duration / s > MAX_POINTS as int {
            let widened: int = (duration + MAX_POINTS - 1) / (MAX_POINTS as int);
            Ok(HistoryRange { from: f as i64, to, step: (if widened < MIN_STEP_SEC { MIN_STEP_SEC as int } else { widened }) as i64 })
        } else {
            Ok(HistoryRange { from: f as i64, to, step: s as i64 })
        }
    }
}

/// `r` is the outcome `s`: the same range, or an error with the same message.
pub open spec fn outcome_is(r: Result<HistoryRange, String>, s: Result<HistoryRange, Seq<char>>) -> bool {
    match (r, s) {
        (Ok(a), Ok(b)) => a == b,
        (Err(e), Err(m)) => e@ == m,
        _ => false,
    }
}

fn auto_step(duration: i64) -> (r: i64)
    ensures
        r == spec_auto_step(duration as int),
{
    if duration <= 24 * 3600 {
        60
    } else if duration <= 7 * 24 * 3600 {
        300
    } else {
        3600
    }
}

/// Seconds since the Unix epoch, as the system clock reports them
/// (`SystemTime::now().duration_since(UNIX_EPOCH)`, `as_secs`); `None` when the
/// clock reads before 1970. Nothing is said of the value: it is the time.
#[verifier::external_body]
pub fn now_secs() -> Option<i64> {
    match std::time::SystemTime::now().duration_since(std::time::UNIX_EPOCH) {
        Ok(d) => Some(d.as_secs() as i64),
        Err(_) => None,
    }
}

/// Resolves a history query whose end `to` is known.
///
/// A missing `from` means one day before `to`; a missing `step` is chosen from the
/// length of the range. A step that would give more than `MAX_POINTS` buckets is
/// widened. A range longer than 90 days is refused, also where `to - from` exceeds
/// the `i64` range.
pub fn resolve_range_at(from: Option<i64>, to: i64, step: Option<i64>) -> (r: Result<HistoryRange, String>)
    requires
        from is None ==> to >= i64::MIN + 24 * 3600,
    ensures
        outcome_is(r, spec_resolve_range(from, to, step)),
{
    let from = match from {
        Some(f) => f,
        None => to - 24 * 3600,
    };

    if from >= to {
        return Err("from must be less than to".to_string());
    }

    let duration = match to.checked_sub(from) {
        Some(d) => d,
        None => return Err("range exceeds 90 days".to_string()),
    };
    if duration > MAX_DURATION_SEC {
        return Err("range exceeds 90 days".to_string());
    }

    let mut step = match step {
        Some(s) => s,
        None => auto_step(duration),
    };
    if step < MIN_STEP_SEC {
        return Err("step must be at least 60 seconds".to_string());
    }

    let points = duration / step;
    if points > MAX_POINTS {
        let widened = (duration + MAX_POINTS - 1) / MAX_POINTS;
        step = if widened < MIN_STEP_SEC { MIN_STEP_SEC } else { widened };
    }

    Ok(HistoryRange { from, to, step })
}

/// Resolves a history query; a missing `to` means now (see `resolve_range_at`).
///
/// Where `to` is missing and the clock reads before 1970, or so early that one
/// day before it is not an `i64`, the query is refused with "system clock out
/// of range".
pub fn resolve_range(from: Option<i64>, to: Option<i64>, step: Option<i64>) -> (r: Result<HistoryRange, String>)
    requires
        from is None && to is Some ==> to->0 >= i64::MIN + 24 * 3600,
    ensures
        to matches Some(t) ==> outcome_is(r, spec_resolve_range(from, t, step)),
        to is None ==> (exists|now: i64| outcome_is(r, spec_resolve_range(from, now, step)))
            || outcome_is(r, Err("system clock out of range"@)),
{
    let to = match to {
        Some(t) => t,
        None => match now_secs() {
            Some(now) => now,
            None => return Err("system clock out of range".to_string()),
        },
    };
    if from.is_none() && to < i64::MIN + 24 * 3600 {
        return Err("system clock out of range".to_string());
    }
    resolve_range_at(from, to, step)
}

/// A requested step of at least a minute that splits the range into at most
/// 2500 buckets is kept as it is, with the range as asked.
pub proof fn lemma_given_step_is_kept(from: i64, to: i64, s: i64)
    requires
        from < to,
        to - from <= 90 * 24 * 3600,
        s >= 60,
        (to - from) / (s as int) <= 2500,
    ensures
        spec_resolve_range(Some(from), to, Some(s)) == Ok::<HistoryRange, Seq<char>>(HistoryRange { from, to, step: s }),
{
}

/// Without a step, the buckets are a minute wide for a range of up to a day,
/// five minutes up to a week and an hour up to 90 days; without a start, the
/// range is the day before `to`, in one-minute buckets.
pub proof fn lemma_default_step(from: Option<i64>, to: i64)
    requires
        from is None ==> to >= i64::MIN + 24 * 3600,
        from matches Some(f) ==> f < to && to - f <= 90 * 24 * 3600,
    ensures
        from is None ==> spec_resolve_range(from, to, None)
            == Ok::<HistoryRange, Seq<char>>(HistoryRange { from: (to - 24 * 3600) as i64, to, step: 60 }),
        from matches Some(f) ==> spec_resolve_range(from, to, None) == Ok::<HistoryRange, Seq<char>>(HistoryRange {
            from: f,
            to,
            step: if to - f <= 24 * 3600 { 60 } else if to - f <= 7 * 24 * 3600 { 300 } else { 3600 },
        }),
{
    if let Some(f) = from {
        let d = to - f;
        if d <= 24 * 3600 {
            assert(d / 60 <= 1440);
        } else if d <= 7 * 24 * 3600 {
            assert(d / 300 <= 2016);
        } else {
            assert(d / 3600 <= 2160);
        }
    } else {
        assert((24 * 3600) / 60 == 1440);
    }
}

/// Refused queries: a start not before the end, a range longer than 90 days,
/// and a requested step under a minute.
pub proof fn lemma_refusals(from: i64, to: i64, step: Option<i64>)
    ensures
        from >= to ==> spec_resolve_range(Some(from), to, step) == Err::<HistoryRange, Seq<char>>("from must be less than to"@),
        from < to && to - from > 90 * 24 * 3600 ==> spec_resolve_range(Some(from), to, step)
            == Err::<HistoryRange, Seq<char>>("range exceeds 90 days"@),
        from < to && to - from <= 90 * 24 * 3600 && (step matches Some(s) && s < 60) ==> spec_resolve_range(Some(from), to, step)
            == Err::<HistoryRange, Seq<char>>("step must be at least 60 seconds"@),
{
}

/// A resolved range is well formed: it ends at the requested `to`, starts at the
/// requested `from` if one was given, spans more than nothing and at most 90 days,
/// and splits into buckets of at least a minute, at most `MAX_POINTS` of them.
pub proof fn lemma_resolved_range_is_bounded(from: Option<i64>, to: i64, step: Option<i64>)
    requires
        from is None ==> to >= i64::MIN + 24 * 3600,
        spec_resolve_range(from, to, step) is Ok,
    ensures
        ({
            let h = spec_resolve_range(from, to, step)->Ok_0;
            &&& h.to == to
            &&& from matches Some(f) ==> h.from == f
            &&& h.from < h.to
            &&& h.to - h.from <= MAX_DURATION_SEC
            &&& h.step >= MIN_STEP_SEC
            &&& (h.to - h.from) / (h.step as int) <= MAX_POINTS
        }),
{
    let f: int = match from {
        Some(f) => f as int,
        None => to - 24 * 3600,
    };
    let duration = to - f;
    let s: int = match step {
        Some(s) => s as int,
        None => spec_auto_step(duration),
    };
    if duration / s > MAX_POINTS as int {
        let w: int = (duration + MAX_POINTS - 1) / (MAX_POINTS as int);
        assert(duration <= 2500 * w) by (nonlinear_arith)
            requires w == (duration + 2499) / 2500, duration > 0;
        let st: int = if w < 60 { 60 } else { w };
        assert(duration / st <= 2500) by (nonlinear_arith)
            requires duration <= 2500 * w, st >= w, w >= 1, duration > 0;
        assert(w <= duration);
    }
}

} // verus!
