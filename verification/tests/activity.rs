//! The activity ledger: when a credential was last used, and what it spent.

use jcode_pricing::clock::{labels_at, WindowLabels};
use jcode_pricing::currency::Currency;
use jcode_pricing::provider_activity::{
    all_entries, last_used_unix_secs, needs_reload, record_spend, record_use, roll_spend,
    spend_snapshot, Buckets, Figure, ProviderActivityEntry, ProviderActivityStore, ProviderSpend,
    LAST_USED_WRITE_THROTTLE_SECS, PROVIDER_ACTIVITY_SCHEMA_VERSION, QUERY_RELOAD_TTL_NANOS,
};
use jcode_pricing::provider_names::{
    display_name_for_source_key, format_relative_age, source_key_for_provider_label,
};
use jcode_pricing::providers::{Profile, VendorNames};
use jcode_pricing::rate::Rate;

/// A stand-in for what the runtime calls Anthropic.
fn names() -> VendorNames {
    VendorNames { key: "vendor".to_string(), title: "Vendor".to_string() }
}

fn profiles() -> Vec<Profile> {
    vec![
        Profile { id: "deepseek".to_string(), display_name: "DeepSeek".to_string() },
        Profile { id: "moonshotai".to_string(), display_name: "Moonshot AI".to_string() },
    ]
}

fn rate(value: f64) -> Rate {
    Rate { bits: value.to_bits() }
}

fn sum(terms: &[Rate]) -> f64 {
    terms.iter().map(|term| f64::from_bits(term.bits)).fold(0.0, |a, b| a + b)
}

/// The amounts of a window, by code.
fn amounts(buckets: &Buckets) -> Vec<(String, f64)> {
    buckets.entries.iter().map(|(code, terms)| (code.clone(), sum(terms))).collect()
}

fn held(expected: &[(&str, f64)]) -> Vec<(String, f64)> {
    expected.iter().map(|(code, value)| (code.to_string(), *value)).collect()
}

/// The figure of a window that is written for a reader of USD totals.
fn figure(figure: &Figure, buckets: &Buckets) -> f64 {
    match figure {
        Figure::Number(number) => f64::from_bits(number.bits),
        Figure::SumOfBuckets => amounts(buckets).iter().map(|entry| entry.1).sum(),
    }
}

fn buckets(entries: &[(&str, f64)]) -> Buckets {
    Buckets {
        entries: entries
            .iter()
            .map(|(code, value)| (code.to_string(), vec![rate(*value)]))
            .collect(),
    }
}

/// 2026-09-14T12:00:00Z.
const NOW: u64 = 1_789_387_200;

fn today() -> WindowLabels {
    labels_at(NOW as i64).expect("a date")
}

fn spend(store: &mut ProviderActivityStore, key: &str, amount: f64, code: &str) -> bool {
    record_spend(store, key, rate(amount), &Currency::new(code), NOW, &today())
}

fn snapshot(store: &ProviderActivityStore, key: &str) -> Option<ProviderSpend> {
    spend_snapshot(store, key, &today())
}

/// A ledger with one spend record.
fn ledger(key: &str, spend: ProviderSpend) -> ProviderActivityStore {
    let mut store = ProviderActivityStore::default();
    let entry = ProviderActivityEntry { last_used_unix_secs: Some(1), spend: Some(spend) };
    store.entries.push((key.to_string(), entry));
    store
}

/// A record as it was written before there were buckets.
fn legacy_spend(day: f64, month: f64, all_time: f64) -> ProviderSpend {
    ProviderSpend {
        day_date: today().day,
        day: Buckets::new(),
        day_usd: Figure::Number(rate(day)),
        month: today().month,
        month_spend: Buckets::new(),
        month_usd: Figure::Number(rate(month)),
        all_time: Buckets::new(),
        all_time_usd: Figure::Number(rate(all_time)),
    }
}

/// The record as a reader of USD totals writes it back.
fn rewritten_by_an_older_reader(spend: &ProviderSpend) -> ProviderSpend {
    legacy_spend(
        figure(&spend.day_usd, &spend.day),
        figure(&spend.month_usd, &spend.month_spend),
        figure(&spend.all_time_usd, &spend.all_time),
    )
}

#[test]
fn the_windows_are_labelled_by_their_date() {
    assert_eq!(today().day, "2026-09-14");
    assert_eq!(today().month, "2026-09");
    let epoch = labels_at(0).expect("a date");
    assert_eq!(epoch.day, "1970-01-01");
    assert_eq!(epoch.month, "1970-01");
    assert!(labels_at(i64::MAX).is_none(), "no such date");
}

/// A file from before the buckets carries its money in the USD figures only.
#[test]
fn legacy_fields_migrate_to_usd_bucket() {
    let key = "vendor:api-key";
    let mut store = ledger(key, legacy_spend(12.0, 12.0, 12.0));
    store.schema_version = 1;
    store.migrate_legacy_usd_figures();

    let usd = held(&[("USD", 12.0)]);
    let record = snapshot(&store, key).expect("legacy entry loads");
    assert_eq!(amounts(&record.day), usd, "legacy day_usd becomes a USD bucket");
    assert_eq!(amounts(&record.month_spend), usd);
    assert_eq!(amounts(&record.all_time), usd);
    assert_eq!(store.schema_version, PROVIDER_ACTIVITY_SCHEMA_VERSION);
    assert_eq!(store.schema_version, 2);

    spend(&mut store, key, 3.0, "cny");
    let both = held(&[("CNY", 3.0), ("USD", 12.0)]);
    let record = snapshot(&store, key).expect("recorded");
    assert_eq!(amounts(&record.day), both);
    assert_eq!(figure(&record.day_usd, &record.day), 15.0);

    // Reading it again must not seed the bucket a second time.
    store.migrate_legacy_usd_figures();
    let record = snapshot(&store, key).expect("reload");
    assert_eq!(amounts(&record.day), both);
    assert!((figure(&record.day_usd, &record.day) - 15.0).abs() < 1e-9);
}

#[test]
fn usd_mirror_tracks_bucket_sum() {
    let mut store = ProviderActivityStore::default();
    spend(&mut store, "openai:api-key", 30.0, "cny");
    spend(&mut store, "openai:api-key", 5.0, "USD");
    let record = snapshot(&store, "openai:api-key").expect("spend recorded");
    assert_eq!(
        amounts(&record.day),
        held(&[("CNY", 30.0), ("USD", 5.0)]),
        "each currency keeps its own bucket, normalized"
    );
    // The mirror is the naive sum of the buckets, never a converted total.
    assert!((figure(&record.day_usd, &record.day) - 35.0).abs() < 1e-9);
    assert!((figure(&record.month_usd, &record.month_spend) - 35.0).abs() < 1e-9);
    assert!((figure(&record.all_time_usd, &record.all_time) - 35.0).abs() < 1e-9);
}

#[test]
fn multi_currency_buckets_accumulate() {
    let key = "openai-compatible:deepseek";
    let mut store = ProviderActivityStore::default();
    spend(&mut store, key, 30.0, "CNY");
    spend(&mut store, key, 5.0, "CNY");
    spend(&mut store, key, 2.0, "USD");
    let record = snapshot(&store, key).expect("spend recorded");
    let expected = held(&[("CNY", 35.0), ("USD", 2.0)]);
    assert_eq!(amounts(&record.day), expected, "same-currency calls add up");
    assert_eq!(amounts(&record.month_spend), expected);
    assert_eq!(amounts(&record.all_time), expected);
    assert!((figure(&record.day_usd, &record.day) - 37.0).abs() < 1e-9);
}

fn stale_spend() -> ProviderSpend {
    ProviderSpend {
        day_date: "2000-01-01".to_string(),
        day: buckets(&[("CNY", 7.0)]),
        day_usd: Figure::Number(rate(7.0)),
        month: "2000-01".to_string(),
        month_spend: buckets(&[("CNY", 20.0)]),
        month_usd: Figure::Number(rate(20.0)),
        all_time: buckets(&[("CNY", 42.0)]),
        all_time_usd: Figure::Number(rate(42.0)),
    }
}

#[test]
fn roll_clears_stale_windows_but_keeps_all_time() {
    let key = "openai-compatible:deepseek";
    let mut store = ledger(key, stale_spend());
    store.migrate_legacy_usd_figures();
    spend(&mut store, key, 1.0, "USD");

    let check = |store: &ProviderActivityStore| {
        let record = snapshot(store, key).expect("spend recorded");
        assert_eq!(
            amounts(&record.day),
            held(&[("USD", 1.0)]),
            "the day window holds only today's spend"
        );
        assert!(
            (figure(&record.day_usd, &record.day) - 1.0).abs() < 1e-9,
            "the day mirror follows"
        );
        assert_eq!(
            amounts(&record.month_spend),
            held(&[("USD", 1.0)]),
            "the month window holds only this month's spend"
        );
        assert!(
            (figure(&record.month_usd, &record.month_spend) - 1.0).abs() < 1e-9,
            "the month mirror follows"
        );
        assert_eq!(
            amounts(&record.all_time),
            held(&[("CNY", 42.0), ("USD", 1.0)]),
            "all-time keeps the rolled-away money and adds to it"
        );
        assert!((figure(&record.all_time_usd, &record.all_time) - 43.0).abs() < 1e-9);
    };
    check(&store);
    // A reload must not resurrect the cleared windows.
    store.migrate_legacy_usd_figures();
    check(&store);
}

#[test]
fn roll_spend_empties_buckets_and_mirrors_together() {
    let mut record = stale_spend();
    roll_spend(&mut record, &today());
    assert_eq!(record.day_date, today().day);
    assert_eq!(record.month, today().month);
    assert!(
        record.day.is_empty() && figure(&record.day_usd, &record.day) == 0.0,
        "day clears its map and mirror together: {record:?}"
    );
    assert!(
        record.month_spend.is_empty() && figure(&record.month_usd, &record.month_spend) == 0.0,
        "month clears its map and mirror together: {record:?}"
    );
    assert_eq!(
        amounts(&record.all_time),
        held(&[("CNY", 42.0)]),
        "all-time is not rolled"
    );
    assert!((figure(&record.all_time_usd, &record.all_time) - 42.0).abs() < 1e-9);
}

/// A user who falls back to an older program must not lose their history.
#[test]
fn rollback_roundtrip_keeps_buckets() {
    let key = "openai-compatible:deepseek";
    let mut store = ProviderActivityStore::default();
    spend(&mut store, key, 30.0, "CNY");
    spend(&mut store, key, 5.0, "USD");
    let written = snapshot(&store, key).expect("written");
    assert!(amounts(&written.day).iter().any(|entry| entry.0 == "CNY"));

    let older = rewritten_by_an_older_reader(&written);
    for (total, empty) in [
        (&older.day_usd, &older.day),
        (&older.month_usd, &older.month_spend),
        (&older.all_time_usd, &older.all_time),
    ] {
        assert!((figure(total, empty) - 35.0).abs() < 1e-9, "the older reader sees the total");
    }

    // No window is lost: the totals survive as USD, not the split.
    let mut store = ledger(key, older);
    store.migrate_legacy_usd_figures();
    let record = snapshot(&store, key).expect("entry survives the rollback roundtrip");
    let usd = held(&[("USD", 35.0)]);
    assert_eq!(amounts(&record.day), usd, "day bucket survives");
    assert_eq!(amounts(&record.month_spend), usd, "month bucket survives");
    assert_eq!(amounts(&record.all_time), usd, "all_time bucket survives");

    spend(&mut store, key, 4.0, "CNY");
    let record = snapshot(&store, key).expect("still records after rollback");
    assert_eq!(amounts(&record.all_time), held(&[("CNY", 4.0), ("USD", 35.0)]));
}

#[test]
fn record_use_and_spend_roundtrip_under_jcode_home() {
    let mut store = ProviderActivityStore::default();
    assert!(record_use(&mut store, "vendor:oauth:work", NOW));
    assert!(spend(&mut store, "vendor:api-key", 0.25, "USD"));
    assert!(spend(&mut store, "vendor:api-key", 0.50, "USD"));

    assert_eq!(last_used_unix_secs(&store, "vendor:oauth:work"), Some(NOW));
    let record = snapshot(&store, "vendor:api-key").expect("spend recorded");
    assert!((figure(&record.day_usd, &record.day) - 0.75).abs() < 1e-9);
    assert!((figure(&record.all_time_usd, &record.all_time) - 0.75).abs() < 1e-9);
    // Spend also bumps recency.
    assert!(last_used_unix_secs(&store, "vendor:api-key").is_some());
}

#[test]
fn record_spend_ignores_invalid_amounts() {
    let mut store = ProviderActivityStore::default();
    for amount in [0.0, -1.0, f64::NAN, f64::INFINITY] {
        assert!(!spend(&mut store, "openai:api-key", amount, "USD"));
    }
    assert!(!spend(&mut store, "  ", 1.0, "USD"), "a blank key names nobody");
    assert!(snapshot(&store, "openai:api-key").is_none());
}

#[test]
fn a_busy_key_is_not_written_at_every_use() {
    let mut store = ProviderActivityStore::default();
    assert!(record_use(&mut store, " k ", NOW));
    assert_eq!(last_used_unix_secs(&store, "k"), Some(NOW), "the key is trimmed");
    assert!(!record_use(&mut store, "k", NOW + LAST_USED_WRITE_THROTTLE_SECS - 1));
    assert_eq!(last_used_unix_secs(&store, "k"), Some(NOW));
    assert!(record_use(&mut store, "k", NOW + LAST_USED_WRITE_THROTTLE_SECS));
    assert!(!record_use(&mut store, " ", NOW));
}

#[test]
fn keys_do_not_share_their_spending() {
    let mut store = ProviderActivityStore::default();
    spend(&mut store, "a", 1.0, "USD");
    spend(&mut store, "b", 2.0, "CNY");
    assert_eq!(amounts(&snapshot(&store, "a").expect("a").day), held(&[("USD", 1.0)]));
    assert_eq!(amounts(&snapshot(&store, "b").expect("b").day), held(&[("CNY", 2.0)]));
}

#[test]
fn entries_come_by_source_key() {
    let mut store = ProviderActivityStore::default();
    record_use(&mut store, "old", 100);
    record_use(&mut store, "new", 200);
    record_use(&mut store, "middle", 150);
    let keys: Vec<String> = all_entries(&store, &today()).into_iter().map(|e| e.0).collect();
    assert_eq!(keys, vec!["middle", "new", "old"]);
}

#[test]
fn the_ledger_holds_one_entry_per_key() {
    let mut store = ProviderActivityStore::default();
    record_use(&mut store, "b", NOW);
    spend(&mut store, "a", 1.0, "USD");
    record_use(&mut store, " b ", NOW + LAST_USED_WRITE_THROTTLE_SECS);
    spend(&mut store, "b", 2.0, "USD");
    spend(&mut store, "a", 3.0, "CNY");
    assert_eq!(store.entries.len(), 2);
    let keys: Vec<String> = all_entries(&store, &today()).into_iter().map(|e| e.0).collect();
    assert_eq!(keys, vec!["a", "b"]);
}

#[test]
fn a_copy_of_the_ledger_answers_for_a_moment() {
    assert!(needs_reload(None));
    assert!(!needs_reload(Some(QUERY_RELOAD_TTL_NANOS)));
    assert!(needs_reload(Some(QUERY_RELOAD_TTL_NANOS + 1)));
}

// ---- names ----

#[test]
fn source_key_mapping_covers_known_providers() {
    let key = |label: &str, runtime: Option<&str>| {
        source_key_for_provider_label(label, runtime, &profiles(), &names())
    };
    assert_eq!(key("DeepSeek", None), "openai-compatible:deepseek");
    assert_eq!(key("Moonshot AI", None), "openai-compatible:moonshotai");
    assert_eq!(key("OpenRouter", None), "openrouter");
    assert_eq!(key("OpenRouter", Some("deepseek")), "openai-compatible:deepseek");
    assert_eq!(key("Anthropic", None), "vendor:api-key");
    assert_eq!(key("OpenAI", None), "openai:api-key");
    assert_eq!(key("Some Custom Endpoint", None), "some-custom-endpoint");
}

#[test]
fn labels_without_a_name_of_their_own_get_a_slug() {
    let key = |label: &str| source_key_for_provider_label(label, None, &profiles(), &names());
    assert_eq!(key("  --  "), "unknown");
    assert_eq!(key("A  b_c"), "a-b-c");
    assert_eq!(key("Vendor Max"), "vendor:api-key");
    assert_eq!(key("Azure OpenAI"), "azure-openai");
    assert_eq!(key("AWS Bedrock"), "bedrock");
    assert_eq!(key(" deepseek "), key("DEEPSEEK"));
}

#[test]
fn relative_age_formatting() {
    let now = NOW;
    let age = |unix: u64| format_relative_age(now, unix);
    assert_eq!(age(now), "just now");
    assert_eq!(age(now - 120), "2m ago");
    assert_eq!(age(now - 3_600), "1h ago");
    assert_eq!(age(now - 2 * 86_400), "2d ago");
    assert_eq!(age(now - 3_720), "1h 2m ago");
    assert_eq!(age(now + 10), "just now", "a time ahead is no age");
}

#[test]
fn source_keys_are_shown_by_name() {
    let shown = |key: &str| display_name_for_source_key(key, &profiles(), &names());
    assert_eq!(shown("openai-compatible:deepseek"), "DeepSeek (API key)");
    assert_eq!(shown("openai-compatible:gw"), "gw (API key)");
    assert_eq!(shown("vendor:oauth:work"), "Anthropic (Vendor) [work]");
    assert_eq!(shown("openai:oauth:me"), "OpenAI (ChatGPT) [me]");
    assert_eq!(shown("vendor:api-key"), "Anthropic API key");
    assert_eq!(shown("copilot"), "GitHub Copilot");
    assert_eq!(shown("some-custom-endpoint"), "Some Custom Endpoint");
}
