//! Which tariff and which long-context tier an entry selects at an instant.

use chrono::{TimeZone, Utc};
use jcode_pricing::clock::{local_reading, ClockTime, Instant, Weekday};
use jcode_pricing::config_types::OnRuleExpiry;
use jcode_pricing::entry::{ModelCost, ModelPricingEntry, RuleOutOfEffect};
use jcode_pricing::rate::{Price, Rate};
use jcode_pricing::rule_types::{ContextTier, CostFields, ScheduleRule, Tariff, TimeWindow};
use jcode_pricing::rules::{
    apply_tariff, apply_tier, plain_prices, resolve_tier, window_matches, window_start_day,
    Prices, SelectedTier,
};

fn rate(value: f64) -> Rate {
    Rate { bits: value.to_bits() }
}

/// The product that a price stands for.
fn value(price: Price) -> f64 {
    let mut value = f64::from_bits(price.written.bits);
    for factor in [price.window, price.context].into_iter().flatten() {
        value *= f64::from_bits(factor.bits);
    }
    value
}

fn card(
    input: Option<f64>,
    output: Option<f64>,
    cache_read: Option<f64>,
    cache_write: Option<f64>,
) -> CostFields {
    CostFields {
        input: input.map(rate),
        output: output.map(rate),
        cache_read: cache_read.map(rate),
        cache_write: cache_write.map(rate),
    }
}

/// A fixed instant, always UTC and always explicit.
fn at(year: i32, month: u32, day: u32, hour: u32, minute: u32, second: u32) -> Instant {
    let time = Utc
        .with_ymd_and_hms(year, month, day, hour, minute, second)
        .single()
        .expect("valid instant");
    Instant { secs: time.timestamp(), nanos: 0 }
}

fn clock(hour: u32, minute: u32, second: u32) -> ClockTime {
    ClockTime { secs: hour * 3600 + minute * 60 + second, nanos: 0 }
}

fn window(start: (u32, u32, u32), end: (u32, u32, u32)) -> TimeWindow {
    TimeWindow {
        start: clock(start.0, start.1, start.2),
        end: clock(end.0, end.1, end.2),
    }
}

fn rule(
    tariff: &str,
    utc_offset_minutes: i32,
    days: &[Weekday],
    windows: Vec<TimeWindow>,
) -> ScheduleRule {
    ScheduleRule {
        tariff: tariff.to_string(),
        utc_offset_minutes,
        weekdays: days.to_vec(),
        windows,
    }
}

/// A base card, `off_peak` = the base rates, `peak` = 2x, peak windows = UTC
/// 01:00-04:00 and 06:00-10:00 on weekdays only.
fn deepseek_entry() -> ModelPricingEntry {
    ModelPricingEntry {
        cost: card(Some(4.5), Some(13.5), Some(0.15), Some(0.6)),
        tariffs: vec![
            (
                "off_peak".to_string(),
                Tariff::Absolute(card(Some(4.5), Some(13.5), Some(0.15), None)),
            ),
            ("peak".to_string(), Tariff::Multiplier(rate(2.0))),
        ],
        schedule: vec![rule(
            "peak",
            0,
            &[Weekday::Mon, Weekday::Tue, Weekday::Wed, Weekday::Thu, Weekday::Fri],
            vec![window((1, 0, 0), (4, 0, 0)), window((6, 0, 0), (10, 0, 0))],
        )],
        context_tiers: Vec::new(),
        default_tariff: Some("off_peak".to_string()),
        effective_from: None,
        effective_until: None,
        on_rule_expiry: OnRuleExpiry::Fallback,
    }
}

fn selected(entry: &ModelPricingEntry, at: Instant) -> SelectedTier {
    resolve_tier(entry, at, None).expect("entry is in effect at this instant")
}

fn tier(entry: &ModelPricingEntry, at: Instant) -> String {
    selected(entry, at).tariff.unwrap_or_else(|| "base".to_string())
}

fn input_rate(entry: &ModelPricingEntry, at: Instant) -> f64 {
    value(selected(entry, at).prices.input.expect("input rate"))
}

fn values(prices: Prices) -> [Option<f64>; 4] {
    [
        prices.input.map(value),
        prices.output.map(value),
        prices.cache_read.map(value),
        prices.cache_write.map(value),
    ]
}

/// The window matcher itself, with no instant involved.
#[test]
fn window_start_day_is_half_open_and_attributes_wrapping_hits() {
    let daytime = window((1, 0, 0), (4, 0, 0));
    assert_eq!(window_start_day(&daytime, clock(0, 59, 0), Weekday::Mon), None);
    assert_eq!(
        window_start_day(&daytime, clock(1, 0, 0), Weekday::Mon),
        Some(Weekday::Mon),
        "`start` is inclusive"
    );
    assert_eq!(
        window_start_day(&daytime, clock(3, 59, 0), Weekday::Mon),
        Some(Weekday::Mon)
    );
    assert_eq!(
        window_start_day(&daytime, clock(4, 0, 0), Weekday::Mon),
        None,
        "`end` is exclusive"
    );

    let wrapping = window((22, 0, 0), (2, 0, 0));
    assert_eq!(
        window_start_day(&wrapping, clock(22, 0, 0), Weekday::Fri),
        Some(Weekday::Fri)
    );
    assert_eq!(
        window_start_day(&wrapping, clock(0, 0, 0), Weekday::Sat),
        Some(Weekday::Fri),
        "after midnight the window still belongs to its start day"
    );
    assert_eq!(
        window_start_day(&wrapping, clock(1, 59, 0), Weekday::Sat),
        Some(Weekday::Fri)
    );
    assert_eq!(window_start_day(&wrapping, clock(2, 0, 0), Weekday::Sat), None);
    assert_eq!(window_start_day(&wrapping, clock(12, 0, 0), Weekday::Sat), None);

    // The weekday gate is applied to the attributed day, not to `day`.
    assert!(window_matches(&wrapping, clock(1, 0, 0), Weekday::Sat, &vec![Weekday::Fri]));
    assert!(!window_matches(&wrapping, clock(1, 0, 0), Weekday::Sat, &vec![Weekday::Sat]));
}

#[test]
fn peak_window_boundaries_are_half_open() {
    let entry = deepseek_entry();
    let cases: [((u32, u32, u32), &str, f64); 8] = [
        ((0, 59, 59), "off_peak", 4.5),
        ((1, 0, 0), "peak", 9.0),
        ((3, 59, 59), "peak", 9.0),
        ((4, 0, 0), "off_peak", 4.5),
        ((5, 59, 59), "off_peak", 4.5),
        ((6, 0, 0), "peak", 9.0),
        ((9, 59, 59), "peak", 9.0),
        ((10, 0, 0), "off_peak", 4.5),
    ];
    for ((hour, minute, second), expected_tier, expected_input) in cases {
        let instant = at(2026, 9, 14, hour, minute, second);
        assert_eq!(
            tier(&entry, instant),
            expected_tier,
            "tariff at {hour:02}:{minute:02}:{second:02} UTC"
        );
        assert_eq!(
            input_rate(&entry, instant),
            expected_input,
            "input rate at {hour:02}:{minute:02}:{second:02} UTC"
        );
    }

    // The whole rate card follows the selected tier, not just `input`.
    let peak = selected(&entry, at(2026, 9, 14, 2, 0, 0)).prices;
    assert_eq!(peak.output.map(value), Some(27.0));
    assert_eq!(peak.cache_read.map(value), Some(0.3));
    assert_eq!(peak.cache_write.map(value), Some(1.2));
}

#[test]
fn weekday_gating_uses_the_local_date() {
    let entry = deepseek_entry();
    assert_eq!(tier(&entry, at(2026, 9, 11, 9, 59, 59)), "peak");
    assert_eq!(tier(&entry, at(2026, 9, 11, 10, 0, 0)), "off_peak");
    assert_eq!(tier(&entry, at(2026, 9, 12, 2, 0, 0)), "off_peak");
    assert_eq!(tier(&entry, at(2026, 9, 13, 1, 30, 0)), "off_peak");
    assert_eq!(tier(&entry, at(2026, 9, 14, 0, 0, 0)), "off_peak");
    assert_eq!(tier(&entry, at(2026, 9, 13, 1, 0, 0)), "off_peak");
    assert_eq!(tier(&entry, at(2026, 9, 14, 1, 0, 0)), "peak");
}

/// `["22:00", "02:00"]` on Fridays runs Friday 22:00 through Saturday 01:59:59,
/// and the half after midnight is attributed to Friday.
#[test]
fn wrapping_window_belongs_to_its_start_day() {
    let mut entry = deepseek_entry();
    entry.schedule = vec![rule("peak", 0, &[Weekday::Fri], vec![window((22, 0, 0), (2, 0, 0))])];

    assert_eq!(tier(&entry, at(2026, 9, 11, 21, 59, 59)), "off_peak");
    assert_eq!(tier(&entry, at(2026, 9, 11, 22, 0, 0)), "peak");
    assert_eq!(tier(&entry, at(2026, 9, 11, 23, 59, 59)), "peak");
    assert_eq!(tier(&entry, at(2026, 9, 12, 0, 0, 0)), "peak");
    assert_eq!(tier(&entry, at(2026, 9, 12, 1, 59, 59)), "peak");
    assert_eq!(tier(&entry, at(2026, 9, 12, 2, 0, 0)), "off_peak");
    // Thursday 23:00 starts on Thursday, which is not enabled.
    assert_eq!(tier(&entry, at(2026, 9, 10, 23, 0, 0)), "off_peak");
    // Friday 01:00 would be the after-midnight half of Thursday's window.
    assert_eq!(tier(&entry, at(2026, 9, 11, 1, 0, 0)), "off_peak");
}

#[test]
fn first_matching_schedule_rule_wins() {
    let mut entry = deepseek_entry();
    entry
        .schedule
        .insert(0, rule("promo", 0, &[], vec![window((1, 0, 0), (2, 0, 0))]));
    entry.tariffs.push(("promo".to_string(), Tariff::Multiplier(rate(0.5))));

    assert_eq!(tier(&entry, at(2026, 9, 14, 1, 30, 0)), "promo");
    assert_eq!(input_rate(&entry, at(2026, 9, 14, 1, 30, 0)), 2.25);
    assert_eq!(tier(&entry, at(2026, 9, 14, 3, 0, 0)), "peak");
    assert_eq!(tier(&entry, at(2026, 9, 14, 5, 0, 0)), "off_peak");
}

#[test]
fn multiplier_scales_every_known_field_and_keeps_absent_ones_absent() {
    let entry = deepseek_entry();
    let peak = selected(&entry, at(2026, 9, 14, 2, 0, 0));
    assert_eq!(peak.tariff.as_deref(), Some("peak"));
    assert_eq!(
        values(peak.prices),
        [Some(9.0), Some(27.0), Some(0.3), Some(1.2)]
    );

    let mut partial = deepseek_entry();
    partial.cost.cache_write = None;
    let peak = selected(&partial, at(2026, 9, 14, 2, 0, 0));
    assert_eq!(
        peak.prices.cache_write, None,
        "scaling an absent rate must not invent one"
    );
}

#[test]
fn absolute_tariff_overrides_written_fields_only() {
    let mut entry = deepseek_entry();
    entry.tariffs.push((
        "promo".to_string(),
        Tariff::Absolute(card(Some(1.0), None, Some(0.01), None)),
    ));
    entry.schedule = vec![rule("promo", 0, &[], vec![window((3, 0, 0), (4, 0, 0))])];

    let promo = values(selected(&entry, at(2026, 9, 14, 3, 30, 0)).prices);
    assert_eq!(promo[0], Some(1.0), "written field wins");
    assert_eq!(promo[1], Some(13.5), "absent field falls back");
    assert_eq!(promo[2], Some(0.01));
    assert_eq!(promo[3], Some(0.6), "absent field falls back");

    // `off_peak` is also an absolute card and leaves `cache_write` unset.
    let off_peak = values(selected(&entry, at(2026, 9, 14, 5, 0, 0)).prices);
    assert_eq!(off_peak[3], Some(0.6));
    assert_eq!(off_peak[0], Some(4.5));
}

#[test]
fn default_tariff_applies_when_nothing_matches() {
    let mut entry = deepseek_entry();
    entry.schedule.clear();
    let resolved = selected(&entry, at(2026, 9, 14, 2, 0, 0));
    assert_eq!(resolved.tariff.as_deref(), Some("off_peak"));
    assert_eq!(resolved.prices.input.map(value), Some(4.5));
}

#[test]
fn missing_or_unknown_tariff_falls_back_to_base_cost() {
    let mut no_default = deepseek_entry();
    no_default.schedule.clear();
    no_default.default_tariff = None;
    let resolved = selected(&no_default, at(2026, 9, 14, 2, 0, 0));
    assert_eq!(resolved.tariff, None);
    assert_eq!(resolved.prices, plain_prices(no_default.cost));

    let mut dangling_default = deepseek_entry();
    dangling_default.schedule.clear();
    dangling_default.default_tariff = Some("gone".to_string());
    let resolved = selected(&dangling_default, at(2026, 9, 14, 2, 0, 0));
    assert_eq!(resolved.tariff, None);
    assert_eq!(resolved.prices, plain_prices(dangling_default.cost));

    // A schedule entry naming a tariff the entry does not define degrades to
    // the next tier the entry can actually resolve.
    let mut dangling_schedule = deepseek_entry();
    dangling_schedule.schedule = vec![rule("gone", 0, &[], vec![window((1, 0, 0), (4, 0, 0))])];
    let resolved = selected(&dangling_schedule, at(2026, 9, 14, 2, 0, 0));
    assert_eq!(resolved.tariff.as_deref(), Some("off_peak"));

    let mut dangling_only = dangling_schedule.clone();
    dangling_only.default_tariff = None;
    let resolved = selected(&dangling_only, at(2026, 9, 14, 2, 0, 0));
    assert_eq!(resolved.tariff, None);
    assert_eq!(resolved.prices, plain_prices(dangling_only.cost));
}

#[test]
fn empty_weekdays_and_windows_mean_every_day_and_every_time() {
    let mut entry = deepseek_entry();
    entry.schedule = vec![rule("peak", 0, &[], vec![window((1, 0, 0), (4, 0, 0))])];
    assert_eq!(
        tier(&entry, at(2026, 9, 12, 2, 0, 0)),
        "peak",
        "empty weekdays means every day of the week"
    );
    assert_eq!(tier(&entry, at(2026, 9, 13, 8, 0, 0)), "off_peak");

    entry.schedule = vec![rule("peak", 0, &[Weekday::Sat, Weekday::Sun], Vec::new())];
    assert_eq!(
        tier(&entry, at(2026, 9, 12, 13, 0, 0)),
        "peak",
        "empty windows means every time of day"
    );
    assert_eq!(tier(&entry, at(2026, 9, 14, 13, 0, 0)), "off_peak");
}

#[test]
fn windows_are_evaluated_in_offset_local_time() {
    let mut entry = deepseek_entry();
    entry.schedule = vec![rule("peak", 480, &[Weekday::Mon], vec![window((9, 0, 0), (12, 0, 0))])];

    // 2026-09-14T01:00:00Z == Monday 09:00 Beijing.
    assert_eq!(tier(&entry, at(2026, 9, 14, 1, 0, 0)), "peak");
    assert_eq!(tier(&entry, at(2026, 9, 14, 0, 59, 59)), "off_peak");
    assert_eq!(tier(&entry, at(2026, 9, 14, 4, 0, 0)), "off_peak");
    // Sunday 01:00 UTC is Sunday 09:00 Beijing: the local weekday decides.
    assert_eq!(tier(&entry, at(2026, 9, 13, 1, 0, 0)), "off_peak");
}

#[test]
fn validity_bounds_expire_at_the_instant() {
    let mut entry = deepseek_entry();
    let from = at(2026, 9, 14, 1, 0, 0);
    let until = at(2026, 9, 14, 3, 0, 0);
    entry.effective_from = Some(from);
    entry.effective_until = Some(until);

    assert_eq!(
        tier(&entry, at(2026, 9, 14, 2, 59, 59)),
        "peak",
        "one second before the upper bound is still in effect"
    );
    assert!(resolve_tier(&entry, until, None).is_none(), "`effective_until` is exclusive");
    assert_eq!(tier(&entry, from), "peak", "`effective_from` is inclusive");
    assert!(
        resolve_tier(&entry, at(2026, 9, 14, 0, 59, 59), None).is_none(),
        "nothing applies before `effective_from`"
    );
}

// ---- entries ----

fn deepseek_cost() -> ModelCost {
    ModelCost {
        input_usd_per_mtok: rate(0.66),
        output_usd_per_mtok: rate(1.98),
        cache_read_usd_per_mtok: Some(rate(0.022)),
        cache_write_usd_per_mtok: None,
    }
}

#[test]
fn bare_model_cost_has_no_extensions() {
    let entry = ModelPricingEntry::from_model_cost(deepseek_cost());
    assert_eq!(entry.cost.input, Some(rate(0.66)));
    assert_eq!(entry.cost.output, Some(rate(1.98)));
    assert_eq!(entry.cost.cache_read, Some(rate(0.022)));
    assert!(entry.tariffs.is_empty());
    assert!(entry.schedule.is_empty());
    assert_eq!(entry.default_tariff, None);
    assert_eq!(entry.on_rule_expiry, OnRuleExpiry::Fallback);
    assert!(entry.is_active_at(at(2026, 9, 14, 0, 0, 0)));
    assert_eq!(entry.to_model_cost(), Some(deepseek_cost()));
}

#[test]
fn validity_bounds_are_inclusive_and_exclusive() {
    let mut entry = ModelPricingEntry::from_model_cost(deepseek_cost());
    let before = at(2025, 12, 31, 23, 59, 59);
    let at_start = at(2026, 1, 1, 0, 0, 0);
    let at_end = at(2026, 12, 31, 23, 59, 59);
    entry.effective_from = Some(at_start);
    entry.effective_until = Some(at_end);
    assert!(!entry.is_active_at(before), "not in effect before `from`");
    assert!(entry.is_active_at(at_start), "`from` is inclusive");
    assert!(!entry.is_active_at(at_end), "`until` is exclusive");

    assert_eq!(
        entry.out_of_effect_reason(before),
        Some(RuleOutOfEffect::NotYetEffective)
    );
    assert_eq!(entry.out_of_effect_reason(at_start), None);
    assert_eq!(entry.out_of_effect_reason(at_end), Some(RuleOutOfEffect::Expired));
    assert_eq!(
        RuleOutOfEffect::Expired.label(),
        "rule expired",
        "the marker the widget shows"
    );
}

// ---- long-context tiers, and the laws on concrete values ----

#[test]
fn a_tier_applies_above_its_threshold_on_top_of_the_tariff() {
    let mut entry = deepseek_entry();
    entry.context_tiers = vec![
        ContextTier {
            min_input_tokens: 500_000,
            tariff: Tariff::Absolute(card(Some(20.0), None, None, None)),
        },
        ContextTier { min_input_tokens: 200_000, tariff: Tariff::Multiplier(rate(1.5)) },
    ];
    let peak = at(2026, 9, 14, 2, 0, 0);
    let price = |tokens: Option<u64>| {
        let tier = resolve_tier(&entry, peak, tokens).expect("in effect");
        (tier.context_tier, values(tier.prices)[0])
    };
    assert_eq!(price(None), (None, Some(9.0)), "a call of unknown size stays on the card");
    assert_eq!(price(Some(200_000)), (None, Some(9.0)), "the threshold is exclusive");
    assert_eq!(price(Some(200_001)), (Some(200_000), Some(13.5)));
    assert_eq!(
        price(Some(600_000)),
        (Some(500_000), Some(20.0)),
        "the first declared tier that the call exceeds wins"
    );
}

#[test]
fn tariffs_and_tiers_apply_field_by_field() {
    let base = card(Some(2.0), Some(4.0), None, None);
    assert_eq!(
        values(apply_tariff(base, Tariff::Multiplier(rate(3.0)))),
        [Some(6.0), Some(12.0), None, None]
    );
    assert_eq!(
        values(apply_tariff(base, Tariff::Absolute(card(None, Some(5.0), Some(0.5), None)))),
        [Some(2.0), Some(5.0), Some(0.5), None]
    );
    let scaled = apply_tariff(base, Tariff::Multiplier(rate(3.0)));
    assert_eq!(
        values(apply_tier(scaled, Tariff::Multiplier(rate(2.0)))),
        [Some(12.0), Some(24.0), None, None]
    );
}

#[test]
fn local_time_is_the_instant_shifted_by_the_offset() {
    // 2026-09-14 is a Monday.
    let (time, day) = local_reading(at(2026, 9, 14, 0, 30, 0), -60);
    assert_eq!(time, clock(23, 30, 0));
    assert_eq!(day, Weekday::Sun);
    let (time, day) = local_reading(at(2026, 9, 14, 23, 30, 0), 60);
    assert_eq!(time, clock(0, 30, 0));
    assert_eq!(day, Weekday::Tue);
}

#[test]
fn rates_are_told_by_their_bits() {
    assert!(rate(0.0).is_non_negative());
    assert!(rate(-0.0).is_non_negative());
    assert!(!rate(-1.0).is_non_negative());
    assert!(!rate(f64::NAN).is_finite());
    assert!(!rate(f64::INFINITY).is_non_negative());
    assert!(rate(1e-300).is_positive());
    assert!(!rate(0.0).is_positive());
    assert!(rate(2.0).is_above(&rate(1.5)));
    assert!(rate(-1.0).is_above(&rate(-2.0)));
    assert!(!rate(1.0).is_above(&rate(1.0)));
}
