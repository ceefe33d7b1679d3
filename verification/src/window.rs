//! Selection of the `[start, reference)` time window that decides which
//! merged requests are in scope for the digest.
//!
//! All instants are seconds since the Unix epoch in UTC. The window starts
//! at midnight of the previous working day: from a Monday the lookback is
//! three calendar days (back to Friday), from any other day it is one.

use vstd::prelude::*;

verus! {

/// Seconds in one calendar day.
pub const SECONDS_PER_DAY: u64 = 86400;

/// The window used to decide which merged requests are in scope.
/// `reference` is the instant the pipeline ran; it bounds the selection
/// from above and gives the digest its display date.
pub struct TimeWindow {
    pub start: u64,
    pub reference: u64,
}

impl TimeWindow {
    pub open spec fn wf(self) -> bool {
        self.start < self.reference
    }
}

/// Midnight (start of day, UTC) of the day containing instant `t`.
pub open spec fn midnight_of(t: int) -> int {
    86400 * (t / 86400)
}

/// Day of week of instant `t`, as 0 = Monday .. 6 = Sunday.
/// Day 0 of the epoch was a Thursday, hence the offset of 3.
pub open spec fn weekday_index(t: int) -> int {
    (t / 86400 + 3) % 7
}

/// Calendar days between `t` and the previous working day:
/// three from a Monday, one otherwise.
pub open spec fn lookback_days(t: int) -> int {
    if weekday_index(t) == 0 {
        3
    } else {
        1
    }
}

/// Start of the digest window for a run at instant `now`: midnight of the
/// previous working day.
pub open spec fn window_start_of(now: int) -> int {
    midnight_of(now - 86400 * lookback_days(now))
}

proof fn lemma_midnight_bounds(t: int)
    requires
        0 <= t,
    ensures
        midnight_of(t) <= t,
        t - 86400 < midnight_of(t),
        0 <= midnight_of(t),
{
    vstd::arithmetic::div_mod::lemma_fundamental_div_mod(t, 86400);
    vstd::arithmetic::div_mod::lemma_mod_bound(t, 86400);
    vstd::arithmetic::div_mod::lemma_div_pos_is_pos(t, 86400);
}

/// Computes the digest window for a run at instant `now`.
pub fn compute_window(now: u64) -> (w: TimeWindow)
    requires
        3 * 86400 <= now,
    ensures
        w.reference == now,
        w.start == window_start_of(now as int),
        w.wf(),
{
    let day: u64 = now / SECONDS_PER_DAY;
    let weekday: u64 = (day + 3) % 7;
    let days_back: u64 = if weekday == 0 {
        3
    } else {
        1
    };
    let anchor: u64 = now - days_back * SECONDS_PER_DAY;
    let start: u64 = (anchor / SECONDS_PER_DAY) * SECONDS_PER_DAY;
    proof {
        lemma_midnight_bounds(anchor as int);
    }
    TimeWindow { start, reference: now }
}

/// The window always starts at midnight of the previous working day and
/// before the reference instant: from a Tuesday to Friday (weekday indices
/// 1 to 4) the start is midnight of the previous calendar day, from a
/// Monday it is midnight three calendar days back, and in every case the
/// start lies strictly before `now`.
pub proof fn lemma_window_selection(now: int)
    requires
        3 * 86400 <= now,
    ensures
        1 <= weekday_index(now) <= 4 ==> window_start_of(now) == midnight_of(now - 86400),
        weekday_index(now) == 0 ==> window_start_of(now) == midnight_of(now - 3 * 86400),
        window_start_of(now) < now,
{
    lemma_midnight_bounds(now - 86400 * lookback_days(now));
}

/// A record is in scope exactly when it was merged at all and its merge
/// instant falls in `[start, reference)`.
pub open spec fn spec_in_scope(merged_at: Option<u64>, w: TimeWindow) -> bool {
    &&& merged_at is Some
    &&& w.start <= merged_at->0 < w.reference
}

pub fn in_scope(merged_at: Option<u64>, w: &TimeWindow) -> (r: bool)
    ensures
        r == spec_in_scope(merged_at, *w),
{
    match merged_at {
        Some(t) => w.start <= t && t < w.reference,
        None => false,
    }
}

/// Boundary behaviour of the in-scope predicate: the lower bound is
/// inclusive, so a merge at `start` itself is in scope, a merge one second
/// after `start` is in scope whenever it is below `reference`, and the
/// upper bound is exclusive, so a merge at `reference` is not.
pub proof fn lemma_scope_boundaries(w: TimeWindow)
    requires
        w.wf(),
    ensures
        spec_in_scope(Some(w.start), w),
        !spec_in_scope(Some(w.reference), w),
        w.start + 1 < w.reference ==> spec_in_scope(Some((w.start + 1) as u64), w),
{
}

/// The calendar date of an instant, rendered as `dd/mm/yyyy` in UTC.
pub uninterp spec fn date_label_of(t: int) -> Seq<char>;

/// Relies on chrono: `DateTime::<Utc>::from_timestamp` followed by
/// `format("%d/%m/%Y")` renders the calendar date of the given instant,
/// a function of the instant alone.
#[verifier::external_body]
pub fn format_day_month_year(t: u64) -> (r: String)
    requires
        t < 253402300800,
    ensures
        r@ == date_label_of(t as int),
{
    let instant = chrono::DateTime::<chrono::Utc>::from_timestamp(t as i64, 0)
        .expect("instant within the supported range");
    instant.format("%d/%m/%Y").to_string()
}

} // verus!
