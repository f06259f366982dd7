use spark_dashboard::history::{
    day_bucket_start, first_summary_step, history_enabled_from_setting, history_setting_value,
    hour_bucket_start, hourly_prune_cutoff, hourly_rollup_cutoff, next_summary_step,
    raw_rollup_cutoff, summary_has_activity, SummaryCounts, SummaryStep, SummaryTier,
};

#[test]
fn hour_and_day_buckets() {
    assert_eq!(hour_bucket_start(0), 0);
    assert_eq!(hour_bucket_start(3_599_999), 0);
    assert_eq!(hour_bucket_start(7_300_000), 7_200_000);
    assert_eq!(hour_bucket_start(-1), 0);
    assert_eq!(hour_bucket_start(-3_600_001), -3_600_000);
    assert_eq!(day_bucket_start(86_400_000 * 3 + 5), 86_400_000 * 3);
    assert_eq!(day_bucket_start(1_700_000_000_000), 1_699_920_000_000);
}

#[test]
fn rollup_and_prune_cutoffs() {
    let now = 1_700_000_123_456;
    assert_eq!(raw_rollup_cutoff(now), 1_699_999_200_000);
    assert_eq!(hourly_rollup_cutoff(now), 1_699_920_000_000);
    assert_eq!(hourly_prune_cutoff(now), now - 2_592_000_000);
}

#[test]
fn history_setting_round_trip() {
    assert_eq!(history_setting_value(true), "true");
    assert_eq!(history_setting_value(false), "false");
    assert!(history_enabled_from_setting(Some(history_setting_value(true))));
    assert!(!history_enabled_from_setting(Some(history_setting_value(false))));
    assert!(!history_enabled_from_setting(None));
    assert!(!history_enabled_from_setting(Some("TRUE")));
}

fn counts(p: i64, g: i64, r: i64) -> Option<SummaryCounts> {
    Some(SummaryCounts { delta_prompt_tokens: p, delta_gen_tokens: g, total_requests: r })
}

#[test]
fn summary_steps_fall_through_to_first_active_tier() {
    assert!(matches!(first_summary_step(), SummaryStep::Query(SummaryTier::Daily)));
    assert!(matches!(next_summary_step(SummaryTier::Daily, None), SummaryStep::Query(SummaryTier::Hourly)));
    assert!(matches!(next_summary_step(SummaryTier::Daily, counts(0, 0, 0)), SummaryStep::Query(SummaryTier::Hourly)));
    assert!(matches!(next_summary_step(SummaryTier::Hourly, counts(0, 0, 9)), SummaryStep::Found(SummaryTier::Hourly)));
    assert!(matches!(next_summary_step(SummaryTier::Raw, counts(-5, 0, 0)), SummaryStep::NoData));
    assert!(matches!(next_summary_step(SummaryTier::Raw, counts(100, 200, 5)), SummaryStep::Found(SummaryTier::Raw)));
    assert!(summary_has_activity(&SummaryCounts { delta_prompt_tokens: 0, delta_gen_tokens: 1, total_requests: 0 }));
}

#[test]
fn summary_tier_tables() {
    assert_eq!(SummaryTier::Daily.table_name(), "snapshots_1d");
    assert_eq!(SummaryTier::Hourly.table_name(), "snapshots_1h");
    assert_eq!(SummaryTier::Raw.table_name(), "snapshots_1s");
    assert_eq!(SummaryTier::Raw.source_label(), "raw");
    assert_eq!(SummaryTier::Hourly.source_label(), "hourly");
    assert_eq!(SummaryTier::Daily.source_label(), "daily");
    assert_eq!(SummaryTier::Raw.ts_column(), "ts");
    assert_eq!(SummaryTier::Daily.ts_column(), "bucket_ts");
    assert!(SummaryTier::Raw.is_raw());
    assert!(!SummaryTier::Hourly.is_raw());
}

#[test]
fn rollup_cutoff_takes_only_complete_hours() {
    let now = 1_700_000_123_456;
    let cutoff = raw_rollup_cutoff(now);
    let last_hour_row = cutoff - 1;
    let this_hour_row = cutoff + 1;
    assert!(last_hour_row < cutoff);
    assert!(hour_bucket_start(last_hour_row) < hour_bucket_start(now));
    assert!(!(this_hour_row < cutoff));
    assert_eq!(hour_bucket_start(this_hour_row), hour_bucket_start(now));
}

#[test]
fn bucket_start_is_idempotent() {
    for ts in [0i64, 1, 3_599_999, 3_600_000, 1_700_000_123_456, -1, -3_600_000, -7_300_000] {
        assert_eq!(hour_bucket_start(hour_bucket_start(ts)), hour_bucket_start(ts));
        assert_eq!(day_bucket_start(day_bucket_start(ts)), day_bucket_start(ts));
    }
}
