//! The rules of the metrics history store: where the 1s → 1h → 1d rollups
//! cut, how long hourly rows are kept, how the recording switch is persisted,
//! and in which order the summary query consults the rollup tiers.
use vstd::prelude::*;
use crate::text::str_eq;

verus! {

/// One hour in milliseconds.
pub const HOUR_MS: i64 = 3_600_000;

/// One day in milliseconds.
pub const DAY_MS: i64 = 86_400_000;

/// How long hourly rows are kept, in milliseconds (30 days).
pub const HOURLY_RETENTION_MS: i64 = 2_592_000_000;

/// The start of the `width`-wide bucket of `ts`, as integer division that
/// truncates toward zero computes it (`(ts / width) * width`).
pub open spec fn bucket_start(ts: int, width: int) -> int {
    if ts >= 0 {
        (ts / width) * width
    } else {
        -(((-ts) / width) * width)
    }
}

/// The start of the hour of `ts_ms` (`(ts / 3_600_000) * 3_600_000`).
pub fn hour_bucket_start(ts_ms: i64) -> (r: i64)
    ensures
        r == bucket_start(ts_ms as int, HOUR_MS as int),
{
    proof {
        lemma_bucket_bounds(ts_ms as int, HOUR_MS as int);
    }
    (ts_ms / HOUR_MS) * HOUR_MS
}

/// The start of the day of `ts_ms` (`(ts / 86_400_000) * 86_400_000`).
pub fn day_bucket_start(ts_ms: i64) -> (r: i64)
    ensures
        r == bucket_start(ts_ms as int, DAY_MS as int),
{
    proof {
        lemma_bucket_bounds(ts_ms as int, DAY_MS as int);
    }
    (ts_ms / DAY_MS) * DAY_MS
}

/// Raw 1-second rows older than this are complete hours: they are rolled up
/// into hourly rows and pruned. It is the start of the current hour.
pub fn raw_rollup_cutoff(now_ms: i64) -> (r: i64)
    ensures
        r == bucket_start(now_ms as int, HOUR_MS as int),
{
    hour_bucket_start(now_ms)
}

/// Hourly rows older than this are complete days: they are rolled up into
/// daily rows. It is the start of the current day.
pub fn hourly_rollup_cutoff(now_ms: i64) -> (r: i64)
    ensures
        r == bucket_start(now_ms as int, DAY_MS as int),
{
    day_bucket_start(now_ms)
}

/// Hourly rows older than this (30 days before `now_ms`) are pruned.
pub fn hourly_prune_cutoff(now_ms: i64) -> (r: i64)
    requires
        now_ms >= i64::MIN + HOURLY_RETENTION_MS,
    ensures
        r == now_ms - 30 * DAY_MS,
{
    now_ms - 30 * DAY_MS
}

/// A bucket start lies within `width` of its timestamp, on the timestamp's
/// side of zero, and is a multiple of `width`.
pub proof fn lemma_bucket_bounds(ts: int, width: int)
    requires
        width > 0,
    ensures
        ts >= 0 ==> 0 <= bucket_start(ts, width) <= ts < bucket_start(ts, width) + width,
        ts < 0 ==> bucket_start(ts, width) - width < ts <= bucket_start(ts, width) <= 0,
        bucket_start(ts, width) % width == 0,
{
    if ts >= 0 {
        assert(0 <= ts % width < width) by (nonlinear_arith)
            requires
                width > 0,
        ;
        assert(ts == (ts / width) * width + ts % width) by (nonlinear_arith)
            requires
                width > 0,
        ;
        assert((ts / width) >= 0) by (nonlinear_arith)
            requires
                width > 0,
                ts >= 0,
        ;
        assert(((ts / width) * width) % width == 0) by (nonlinear_arith)
            requires
                width > 0,
        ;
        assert((ts / width) * width >= 0) by (nonlinear_arith)
            requires
                width > 0,
                ts / width >= 0,
        ;
    } else {
        let m = -ts;
        assert(0 <= m % width < width) by (nonlinear_arith)
            requires
                width > 0,
        ;
        assert(m == (m / width) * width + m % width) by (nonlinear_arith)
            requires
                width > 0,
        ;
        assert((m / width) >= 0) by (nonlinear_arith)
            requires
                width > 0,
                m >= 0,
        ;
        assert((m / width) * width >= 0) by (nonlinear_arith)
            requires
                width > 0,
                m / width >= 0,
        ;
        assert((-((m / width) * width)) % width == 0) by (nonlinear_arith)
            requires
                width > 0,
        ;
    }
}

/// Rolling up at `now_ms` takes exactly the rows of the hours that have ended:
/// a row at `ts` is older than the cutoff exactly when its hour started before
/// the current hour (timestamps since the epoch).
pub proof fn lemma_rollup_takes_complete_buckets(ts: int, now: int, width: int)
    requires
        width > 0,
        ts >= 0,
        now >= 0,
    ensures
        (ts < bucket_start(now, width)) <==> (bucket_start(ts, width) < bucket_start(now, width)),
{
    lemma_bucket_bounds(ts, width);
    lemma_bucket_bounds(now, width);
    let bt = ts / width;
    let bn = now / width;
    if ts < bucket_start(now, width) {
        assert(bucket_start(ts, width) <= ts);
    } else {
        // bn * width <= ts, so bn <= ts / width, so bn * width <= bt * width.
        assert(bn <= bt) by (nonlinear_arith)
            requires
                width > 0,
                bn * width <= ts,
                bt == ts / width,
                ts >= 0,
        ;
        assert(bn * width <= bt * width) by (nonlinear_arith)
            requires
                width > 0,
                bn <= bt,
        ;
    }
}

/// A bucket start is its own bucket start.
pub proof fn lemma_bucket_start_idempotent(ts: int, width: int)
    requires
        width > 0,
    ensures
        bucket_start(bucket_start(ts, width), width) == bucket_start(ts, width),
{
    lemma_bucket_bounds(ts, width);
    let b = bucket_start(ts, width);
    lemma_bucket_bounds(b, width);
    if ts >= 0 {
        let q = ts / width;
        assert((q * width) / width == q) by (nonlinear_arith)
            requires
                width > 0,
        ;
    } else {
        let q = (-ts) / width;
        assert((q * width) / width == q) by (nonlinear_arith)
            requires
                width > 0,
        ;
        if b < 0 {
            assert(-b == q * width);
        }
    }
}

/// The value under which the recording switch is stored in the settings table.
pub open spec fn history_setting_text(on: bool) -> Seq<char> {
    if on {
        "true"@
    } else {
        "false"@
    }
}

/// Whether the stored setting turns recording on: only the text `true` does;
/// a missing setting, or one that could not be read, leaves it off.
pub open spec fn history_enabled_by(stored: Option<Seq<char>>) -> bool {
    stored == Some("true"@)
}

/// The text that persists the recording switch.
pub fn history_setting_value(on: bool) -> (r: &'static str)
    ensures
        r@ == history_setting_text(on),
{
    if on {
        "true"
    } else {
        "false"
    }
}

/// Whether recording is on, given the stored setting (`None` when the
/// setting is missing or could not be read).
pub fn history_enabled_from_setting(stored: Option<&str>) -> (r: bool)
    ensures
        r == history_enabled_by(match stored { Some(v) => Some(v@), None => None }),
{
    match stored {
        Some(v) => str_eq(v, "true"),
        None => false,
    }
}

/// Persisting the switch and reading it back gives the switch as it was set.
pub proof fn lemma_history_setting_round_trip(on: bool)
    ensures
        history_enabled_by(Some(history_setting_text(on))) == on,
{
    reveal_strlit("true");
    reveal_strlit("false");
    if !on {
        assert("false"@[0] != "true"@[0]);
    }
}

/// The tables that a summary query consults, coarsest first.
#[derive(Clone, Copy, Debug)]
pub enum SummaryTier {
    Daily,
    Hourly,
    Raw,
}

/// The totals of a summary query that decide whether its tier has data.
pub struct SummaryCounts {
    pub delta_prompt_tokens: i64,
    pub delta_gen_tokens: i64,
    pub total_requests: i64,
}

/// What the summary query does next.
pub enum SummaryStep {
    /// Query this tier.
    Query(SummaryTier),
    /// Answer with the totals of this tier.
    Found(SummaryTier),
    /// No tier has data for the window.
    NoData,
}

/// The tier after `tier` in the order daily → hourly → raw.
pub open spec fn next_tier(tier: SummaryTier) -> Option<SummaryTier> {
    match tier {
        SummaryTier::Daily => Some(SummaryTier::Hourly),
        SummaryTier::Hourly => Some(SummaryTier::Raw),
        SummaryTier::Raw => None,
    }
}

/// Whether a tier's totals show any activity (tokens or requests).
pub open spec fn has_activity(c: SummaryCounts) -> bool {
    c.delta_prompt_tokens > 0 || c.delta_gen_tokens > 0 || c.total_requests > 0
}

/// What follows a query of `tier` that gave `outcome` (`None` when the query
/// failed or returned no row): a tier with activity answers; otherwise the
/// next tier is tried, and after the raw tier there is no data.
pub open spec fn summary_step_after(tier: SummaryTier, outcome: Option<SummaryCounts>) -> SummaryStep {
    if outcome matches Some(c) && has_activity(c) {
        SummaryStep::Found(tier)
    } else {
        match next_tier(tier) {
            Some(t) => SummaryStep::Query(t),
            None => SummaryStep::NoData,
        }
    }
}

impl SummaryTier {
    /// The table that holds this tier's rows.
    pub fn table_name(&self) -> (r: &'static str)
        ensures
            r@ == (match self {
                SummaryTier::Daily => "snapshots_1d"@,
                SummaryTier::Hourly => "snapshots_1h"@,
                SummaryTier::Raw => "snapshots_1s"@,
            }),
    {
        match self {
            SummaryTier::Daily => "snapshots_1d",
            SummaryTier::Hourly => "snapshots_1h",
            SummaryTier::Raw => "snapshots_1s",
        }
    }

    /// The name under which a summary reports this tier as its source.
    pub fn source_label(&self) -> (r: &'static str)
        ensures
            r@ == (match self {
                SummaryTier::Daily => "daily"@,
                SummaryTier::Hourly => "hourly"@,
                SummaryTier::Raw => "raw"@,
            }),
    {
        match self {
            SummaryTier::Daily => "daily",
            SummaryTier::Hourly => "hourly",
            SummaryTier::Raw => "raw",
        }
    }

    /// The column that holds this tier's timestamps.
    pub fn ts_column(&self) -> (r: &'static str)
        ensures
            r@ == (match self {
                SummaryTier::Raw => "ts"@,
                _ => "bucket_ts"@,
            }),
    {
        match self {
            SummaryTier::Raw => "ts",
            _ => "bucket_ts",
        }
    }

    /// Whether this tier holds raw 1-second rows (as opposed to rollups).
    pub fn is_raw(&self) -> (r: bool)
        ensures
            r == (*self is Raw),
    {
        match self {
            SummaryTier::Raw => true,
            _ => false,
        }
    }
}

/// Whether a tier's totals show any activity (tokens or requests).
pub fn summary_has_activity(c: &SummaryCounts) -> (r: bool)
    ensures
        r == has_activity(*c),
{
    c.delta_prompt_tokens > 0 || c.delta_gen_tokens > 0 || c.total_requests > 0
}

/// The first step of a summary query: the daily tier.
pub fn first_summary_step() -> (r: SummaryStep)
    ensures
        r == SummaryStep::Query(SummaryTier::Daily),
{
    SummaryStep::Query(SummaryTier::Daily)
}

/// The step after querying `tier` with result `outcome` (see `summary_step_after`).
pub fn next_summary_step(tier: SummaryTier, outcome: Option<SummaryCounts>) -> (r: SummaryStep)
    ensures
        r == summary_step_after(tier, outcome),
{
    let found = match &outcome {
        Some(c) => summary_has_activity(c),
        None => false,
    };
    if found {
        SummaryStep::Found(tier)
    } else {
        match tier {
            SummaryTier::Daily => SummaryStep::Query(SummaryTier::Hourly),
            SummaryTier::Hourly => SummaryStep::Query(SummaryTier::Raw),
            SummaryTier::Raw => SummaryStep::NoData,
        }
    }
}

/// The tier that answers when the daily, hourly and raw queries give
/// `daily`, `hourly` and `raw`: the first one with activity, or none.
pub open spec fn answering_tier(
    daily: Option<SummaryCounts>,
    hourly: Option<SummaryCounts>,
    raw: Option<SummaryCounts>,
) -> Option<SummaryTier> {
    if daily matches Some(c) && has_activity(c) {
        Some(SummaryTier::Daily)
    } else if hourly matches Some(c) && has_activity(c) {
        Some(SummaryTier::Hourly)
    } else if raw matches Some(c) && has_activity(c) {
        Some(SummaryTier::Raw)
    } else {
        None
    }
}

/// Running the summary steps from the first one, feeding each queried tier
/// its outcome, ends after at most three queries with the coarsest tier that
/// has activity, or with no data when none has.
pub proof fn lemma_summary_steps_find_first_active(
    daily: Option<SummaryCounts>,
    hourly: Option<SummaryCounts>,
    raw: Option<SummaryCounts>,
)
    ensures
        ({
            let s1 = summary_step_after(SummaryTier::Daily, daily);
            let s2 = summary_step_after(SummaryTier::Hourly, hourly);
            let s3 = summary_step_after(SummaryTier::Raw, raw);
            let end = if s1 is Query { if s2 is Query { s3 } else { s2 } } else { s1 };
            &&& s1 is Query ==> s1 == SummaryStep::Query(SummaryTier::Hourly)
            &&& s2 is Query ==> s2 == SummaryStep::Query(SummaryTier::Raw)
            &&& s3 !is Query
            &&& match answering_tier(daily, hourly, raw) {
                Some(t) => end == SummaryStep::Found(t),
                None => end == SummaryStep::NoData,
            }
        }),
{
}

} // verus!
