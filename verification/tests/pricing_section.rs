//! Validation of the `[pricing]` section: rules, vendor files, price sheets.

use jcode_pricing::clock::{ClockTime, Weekday};
use jcode_pricing::config_types::{
    ContextTierFile, CostFile, ModelPricingRuleFile, Number, OnRuleExpiry, PricingConfigFile,
    PricingSourceFile, ProviderPricingFile, ScheduleRuleFile, TariffFile,
};
use jcode_pricing::currency::Currency;
use jcode_pricing::json::read_rule;
use jcode_pricing::model::find;
use jcode_pricing::pricing_config::{parse_weekday, window_between};
use jcode_pricing::pricing_section::validate;
use jcode_pricing::pricing_sources::{
    derive_source_id, expand_tilde, is_bare_name, PricingEnv,
};
use jcode_pricing::rate::Rate;
use jcode_pricing::rule_types::{
    CostFields, ModelPricingRule, PricingConfig, PricingConfigError, PricingSource, Tariff,
};

fn rate(value: f64) -> Rate {
    Rate { bits: value.to_bits() }
}

fn number(value: &toml::Value) -> Number {
    let value = match value {
        toml::Value::Integer(whole) => *whole as f64,
        other => other.as_float().expect("a number"),
    };
    Number { rate: rate(value), text: format!("{value}") }
}

fn opt_number(table: &toml::Value, key: &str) -> Option<Number> {
    table.get(key).map(number)
}

fn opt_text(table: &toml::Value, key: &str) -> Option<String> {
    table.get(key).map(|value| value.as_str().expect("a string").to_string())
}

fn texts(table: &toml::Value, key: &str) -> Vec<String> {
    match table.get(key) {
        Some(list) => list
            .as_array()
            .expect("a list")
            .iter()
            .map(|value| value.as_str().expect("a string").to_string())
            .collect(),
        None => Vec::new(),
    }
}

fn keyed<T>(table: &toml::Value, key: &str, read: fn(&toml::Value) -> T) -> Vec<(String, T)> {
    match table.get(key) {
        Some(entries) => {
            let mut read_entries: Vec<(String, T)> = entries
                .as_table()
                .expect("a table")
                .iter()
                .map(|(name, value)| (name.clone(), read(value)))
                .collect();
            read_entries.sort_by(|a, b| a.0.cmp(&b.0));
            read_entries
        }
        None => Vec::new(),
    }
}

fn listed<T>(table: &toml::Value, key: &str, read: fn(&toml::Value) -> T) -> Vec<T> {
    match table.get(key) {
        Some(list) => list.as_array().expect("a list").iter().map(read).collect(),
        None => Vec::new(),
    }
}

fn cost_file(table: &toml::Value) -> CostFile {
    CostFile {
        input: opt_number(table, "input"),
        output: opt_number(table, "output"),
        cache_read: opt_number(table, "cache_read"),
        cache_write: opt_number(table, "cache_write"),
    }
}

fn tariff_file(table: &toml::Value) -> TariffFile {
    TariffFile {
        input: opt_number(table, "input"),
        output: opt_number(table, "output"),
        cache_read: opt_number(table, "cache_read"),
        cache_write: opt_number(table, "cache_write"),
        multiplier: opt_number(table, "multiplier"),
    }
}

fn window_file(pair: &toml::Value) -> (String, String) {
    let pair = pair.as_array().expect("a pair");
    let side = |at: usize| pair[at].as_str().expect("a time").to_string();
    (side(0), side(1))
}

fn schedule_file(table: &toml::Value) -> ScheduleRuleFile {
    ScheduleRuleFile {
        tariff: opt_text(table, "tariff").unwrap_or_default(),
        utc_offset_minutes: table
            .get("utc_offset_minutes")
            .map_or(0, |value| value.as_integer().expect("minutes") as i32),
        weekdays: texts(table, "weekdays"),
        windows: listed(table, "windows", window_file),
    }
}

fn tier_file(table: &toml::Value) -> ContextTierFile {
    ContextTierFile {
        min_input_tokens: table
            .get("min_input_tokens")
            .map(|value| value.as_integer().expect("tokens") as u64),
        input: opt_number(table, "input"),
        output: opt_number(table, "output"),
        cache_read: opt_number(table, "cache_read"),
        cache_write: opt_number(table, "cache_write"),
        multiplier: opt_number(table, "multiplier"),
    }
}

fn rule_file(table: &toml::Value) -> ModelPricingRuleFile {
    ModelPricingRuleFile {
        cost: table.get("cost").map(cost_file),
        tariffs: keyed(table, "tariffs", tariff_file),
        schedule: listed(table, "schedule", schedule_file),
        context_tiers: listed(table, "context_tiers", tier_file),
        default_tariff: opt_text(table, "default_tariff"),
        effective_from: opt_text(table, "effective_from"),
        effective_until: opt_text(table, "effective_until"),
        on_rule_expiry: match table.get("on_rule_expiry").and_then(|value| value.as_str()) {
            Some("fallback") => Some(OnRuleExpiry::Fallback),
            Some("no_price") => Some(OnRuleExpiry::NoPrice),
            _ => None,
        },
    }
}

fn provider_file(table: &toml::Value) -> ProviderPricingFile {
    ProviderPricingFile {
        currency: opt_text(table, "currency"),
        file: opt_text(table, "file"),
        models: keyed(table, "models", rule_file),
    }
}

fn source_file(table: &toml::Value) -> PricingSourceFile {
    PricingSourceFile {
        id: opt_text(table, "id"),
        file: opt_text(table, "file").unwrap_or_default(),
        scope: texts(table, "scope"),
        models: texts(table, "models"),
        format: opt_text(table, "format"),
        priority: table.get("priority").map(|value| value.as_integer().expect("a rank")),
        currency: opt_text(table, "currency"),
    }
}

fn section_file(table: &toml::Value) -> PricingConfigFile {
    PricingConfigFile {
        fx_base: opt_text(table, "fx_base"),
        fx_rates: keyed(table, "fx_rates", number),
        providers: keyed(table, "providers", provider_file),
        sources: listed(table, "sources", source_file),
    }
}

fn toml_of(text: &str) -> toml::Value {
    toml::from_str(text).expect("the text is TOML")
}

const CACHE_DIR: &str = "/home/me/.jcode/cache";
const HOME: &str = "/home/me";

fn env() -> PricingEnv {
    PricingEnv {
        cache_dir: CACHE_DIR.to_string(),
        home: Some(HOME.to_string()),
        known_currencies: ["USD", "CNY", "EUR", "GBP", "JPY"]
            .iter()
            .map(|code| code.to_string())
            .collect(),
    }
}

fn parse_toml(section: &str) -> PricingConfigFile {
    section_file(&toml_of(section))
}

fn check(section: &str) -> Result<(PricingConfig, Vec<String>), PricingConfigError> {
    validate(&parse_toml(section), &env())
}

fn accepted(section: &str) -> PricingConfig {
    check(section).expect("validates").0
}

fn refused(section: &str) -> PricingConfigError {
    check(section).expect_err("is rejected")
}

fn model_rule<'a>(config: &'a PricingConfig, provider: &str, model: &str) -> &'a ModelPricingRule {
    let provider = find(&config.providers, provider).expect("provider");
    find(&provider.models, model).expect("model")
}

#[test]
fn empty_config_defaults() {
    let (config, warnings) = check("").expect("validates");
    assert!(config.is_empty());
    assert!(warnings.is_empty(), "no warnings for an absent section");
    assert!(config.fx_base.is_usd());
}

#[test]
fn currency_normalizes_case() {
    let config = accepted(
        r#"
            [providers.deepseek]
            currency = "cny"
            "#,
    );
    let provider = find(&config.providers, "deepseek").expect("provider");
    assert_eq!(provider.currency.as_ref().map(Currency::as_str), Some("CNY"));
}

#[test]
fn unknown_currency_accepted_with_warning() {
    let (config, warnings) = check(
        r#"
            [providers.custom]
            currency = "xyz"
            "#,
    )
    .expect("unknown codes are accepted");
    assert_eq!(
        find(&config.providers, "custom")
            .and_then(|p| p.currency.as_ref())
            .map(Currency::as_str),
        Some("XYZ")
    );
    assert_eq!(warnings.len(), 1, "exactly one warning: {warnings:?}");
    assert!(
        warnings[0].contains("xyz") || warnings[0].contains("XYZ"),
        "warning should name the code: {}",
        warnings[0]
    );
}

#[test]
fn fx_rates_parses_mixed_currencies() {
    let (config, warnings) = check(
        r#"
            fx_base = "usd"
            [fx_rates]
            CNY = 7.2
            EUR = 0.92
            JPY = 150.0
            "#,
    )
    .expect("validates");
    assert!(warnings.is_empty(), "{warnings:?}");
    assert!(config.fx_base.is_usd());
    assert_eq!(config.fx_rates.len(), 3);
    let cny = config
        .fx_rates
        .iter()
        .find(|entry| entry.0.as_str() == "CNY")
        .map(|entry| f64::from_bits(entry.1.bits))
        .expect("CNY rate");
    assert!((cny - 7.2).abs() < 1e-12);
}

/// A base that is not USD with no USD rate leaves every built-in (USD) route
/// unconvertible. It is a warning, not an error: the section still works.
#[test]
fn non_usd_fx_base_without_a_usd_rate_warns() {
    let (config, warnings) = check(
        r#"
            fx_base = "CNY"
            [fx_rates]
            EUR = 0.92
            "#,
    )
    .expect("validates");
    assert_eq!(config.fx_base.as_str(), "CNY");
    assert!(
        warnings
            .iter()
            .any(|warning| warning.contains("fx_base") && warning.contains("USD")),
        "the missing USD rate must be reported: {warnings:?}"
    );

    let (_, warnings) = check(
        r#"
            fx_base = "CNY"
            [fx_rates]
            USD = 0.14
            "#,
    )
    .expect("validates");
    assert!(
        !warnings.iter().any(|warning| warning.contains("fx_base")),
        "a USD rate makes the comparison possible: {warnings:?}"
    );
}

#[test]
fn non_positive_fx_rate_is_rejected() {
    let err = refused(
        r#"
            [fx_rates]
            CNY = 0.0
            "#,
    );
    assert!(
        err.field_path.contains("fx_rates") && err.field_path.contains("CNY"),
        "path should locate the rate: {}",
        err.to_text()
    );
}

#[test]
fn partial_cost_is_allowed_for_field_level_merge() {
    let config = accepted(
        r#"
            [providers.p.models.m.cost]
            input = 1.0
            "#,
    );
    let cost = model_rule(&config, "p", "m").cost.expect("cost present");
    assert_eq!(cost.input, Some(rate(1.0)));
    assert_eq!(cost.output, None);
}

#[test]
fn empty_cost_table_is_rejected() {
    let err = refused(
        r#"
            [providers.p.models.m.cost]
            "#,
    );
    assert!(
        err.field_path.contains("providers.p.models.m.cost"),
        "path: {}",
        err.to_text()
    );
}

#[test]
fn tariff_needs_multiplier_or_absolute_but_not_both() {
    assert!(
        check(
            r#"
            [providers.p.models.m.tariffs.t]
            multiplier = 2.0
            input = 1.0
            "#,
        )
        .is_err(),
        "multiplier + absolute is ambiguous"
    );
    assert!(
        check(
            r#"
            [providers.p.models.m.tariffs.t]
            input = 1.0
            output = 2.0
            "#,
        )
        .is_ok(),
        "absolute prices are fine"
    );
    assert!(
        check(
            r#"
            [providers.p.models.m.tariffs.t]
            "#,
        )
        .is_err(),
        "an empty tariff is meaningless"
    );
}

#[test]
fn schedule_referencing_unknown_tariff_is_rejected() {
    let err = refused(
        r#"
            [[providers.p.models.m.schedule]]
            tariff = "peak"
            windows = [["01:00", "04:00"]]
            "#,
    );
    assert!(err.field_path.contains("schedule"), "path: {}", err.to_text());
}

#[test]
fn window_start_equals_end_rejected() {
    let err = refused(
        r#"
            [providers.p.models.m.tariffs.peak]
            multiplier = 2.0

            [[providers.p.models.m.schedule]]
            tariff = "peak"
            windows = [["01:00", "01:00"]]
            "#,
    );
    assert!(err.field_path.contains("windows"), "path: {}", err.to_text());
}

#[test]
fn wrap_around_window_is_accepted() {
    let config = accepted(
        r#"
            [providers.p.models.m.tariffs.peak]
            multiplier = 2.0

            [[providers.p.models.m.schedule]]
            tariff = "peak"
            windows = [["22:00", "02:00"]]
            "#,
    );
    let window = model_rule(&config, "p", "m").schedule[0].windows[0];
    assert!(window.wraps_midnight());
    assert_eq!(window.start, clock(22, 0));
    assert_eq!(window.end, clock(2, 0));
}

#[test]
fn invalid_time_string_reports_field_path() {
    let err = refused(
        r#"
            [providers.p.models.m.tariffs.peak]
            multiplier = 2.0

            [[providers.p.models.m.schedule]]
            tariff = "peak"
            windows = [["01:00", "25:99"]]
            "#,
    );
    assert!(
        err.field_path.contains("schedule") && err.field_path.contains("windows"),
        "path should point at the window: {}",
        err.to_text()
    );
}

#[test]
fn unknown_weekday_is_rejected() {
    let err = refused(
        r#"
            [providers.p.models.m.tariffs.peak]
            multiplier = 2.0

            [[providers.p.models.m.schedule]]
            tariff = "peak"
            weekdays = ["Funday"]
            windows = [["01:00", "04:00"]]
            "#,
    );
    assert!(err.field_path.contains("weekdays"), "path: {}", err.to_text());
}

#[test]
fn weekdays_parse_case_insensitively_and_expand_names() {
    let config = accepted(
        r#"
            [providers.p.models.m.tariffs.peak]
            multiplier = 2.0

            [[providers.p.models.m.schedule]]
            tariff = "peak"
            weekdays = ["mon", "Tuesday", "FRI"]
            windows = [["01:00", "04:00"]]
            "#,
    );
    assert_eq!(
        model_rule(&config, "p", "m").schedule[0].weekdays,
        vec![Weekday::Mon, Weekday::Tue, Weekday::Fri]
    );
}

#[test]
fn context_tiers_convert_a_multiplier_and_an_absolute_card() {
    let config = accepted(
        r#"
            [providers.p.models.m.cost]
            input = 1.0
            output = 2.0

            [[providers.p.models.m.context_tiers]]
            min_input_tokens = 200_000
            multiplier = 2.0

            [[providers.p.models.m.context_tiers]]
            min_input_tokens = 500_000
            input = 9.0
            output = 27.0
            "#,
    );
    let tiers = &model_rule(&config, "p", "m").context_tiers;
    assert_eq!(tiers.len(), 2, "declaration order is kept");
    assert_eq!(tiers[0].min_input_tokens, 200_000);
    assert_eq!(tiers[0].tariff, Tariff::Multiplier(rate(2.0)));
    assert_eq!(
        tiers[1].tariff,
        Tariff::Absolute(CostFields {
            input: Some(rate(9.0)),
            output: Some(rate(27.0)),
            cache_read: None,
            cache_write: None,
        })
    );
}

#[test]
fn context_tier_without_a_threshold_is_rejected() {
    let err = refused(
        r#"
            [[providers.p.models.m.context_tiers]]
            multiplier = 2.0
            "#,
    );
    assert!(err.field_path.contains("context_tiers[0]"), "path: {}", err.to_text());
}

#[test]
fn zero_context_tier_threshold_is_rejected() {
    let err = refused(
        r#"
            [[providers.p.models.m.context_tiers]]
            min_input_tokens = 0
            multiplier = 2.0
            "#,
    );
    assert!(err.field_path.contains("min_input_tokens"), "path: {}", err.to_text());
}

#[test]
fn empty_context_tier_rates_are_rejected() {
    let err = refused(
        r#"
            [[providers.p.models.m.context_tiers]]
            min_input_tokens = 200_000
            "#,
    );
    assert!(err.field_path.contains("context_tiers[0]"), "path: {}", err.to_text());
}

#[test]
fn duplicate_context_tier_thresholds_are_rejected() {
    let err = refused(
        r#"
            [[providers.p.models.m.context_tiers]]
            min_input_tokens = 200_000
            multiplier = 2.0

            [[providers.p.models.m.context_tiers]]
            min_input_tokens = 200_000
            multiplier = 3.0
            "#,
    );
    assert!(err.field_path.contains("context_tiers[1]"), "path: {}", err.to_text());
}

#[test]
fn on_rule_expiry_defaults_to_fallback() {
    let config = accepted(
        r#"
            [providers.p.models.m.cost]
            input = 1.0
            output = 2.0
            "#,
    );
    assert_eq!(model_rule(&config, "p", "m").on_rule_expiry, OnRuleExpiry::Fallback);
}

#[test]
fn effective_window_parses_rfc3339() {
    let config = accepted(
        r#"
            [providers.p.models.m]
            effective_until = "2026-12-31T23:59:59Z"
            "#,
    );
    let until = model_rule(&config, "p", "m").effective_until.expect("parsed");
    assert_eq!(until.secs, 1_798_761_599);
}

#[test]
fn invalid_effective_until_reports_field_path() {
    let err = refused(
        r#"
            [providers.p.models.m]
            effective_until = "soon"
            "#,
    );
    assert!(err.field_path.contains("effective_until"), "path: {}", err.to_text());
}

/// Every rate a hand-written card can state must be a finite, non-negative
/// number, and the error must name the offending field.
#[test]
fn non_finite_or_negative_cost_rates_are_rejected_with_their_path() {
    for (spelling, expected) in [
        ("nan", "cost.input"),
        ("-inf", "cost.output"),
        ("-1.0", "cost.cache_read"),
    ] {
        let field = expected.rsplit('.').next().unwrap();
        let mut body = String::new();
        for name in ["input", "output", "cache_read"] {
            let value = if name == field { spelling } else { "1.0" };
            body.push_str(&format!("{name} = {value}\n"));
        }
        let err = refused(&format!("[providers.p.models.m.cost]\n{body}"));
        assert!(
            err.field_path.ends_with(expected),
            "expected path ending in {expected}, got {}",
            err.to_text()
        );
    }
}

#[test]
fn non_finite_or_negative_tariff_and_tier_rates_are_rejected() {
    for spelling in ["nan", "-inf", "-1.0"] {
        let err = refused(&format!(
            r#"
                [providers.p.models.m.tariffs.peak]
                input = {spelling}
                output = 2.0
                "#,
        ));
        assert!(err.field_path.contains("tariffs.peak.input"), "path: {}", err.to_text());

        let err = refused(&format!(
            r#"
                [[providers.p.models.m.context_tiers]]
                min_input_tokens = 200_000
                output = {spelling}
                "#,
        ));
        assert!(
            err.field_path.contains("context_tiers[0].output"),
            "path: {}",
            err.to_text()
        );
    }
}

/// A zero rate is legitimate (`input = 0` is a free tier).
#[test]
fn a_zero_rate_is_accepted() {
    check(
        r#"
            [providers.p.models.m.cost]
            input = 0.0
            output = 0
            "#,
    )
    .expect("zero is a valid rate");
}

#[test]
fn default_tariff_must_exist() {
    let err = refused(
        r#"
            [providers.p.models.m]
            default_tariff = "off_peak"
            "#,
    );
    assert!(err.field_path.contains("default_tariff"), "path: {}", err.to_text());
}

// ---- `[pricing.providers.<vendor>].file` ----

/// The one resolved vendor file for a section with one provider.
fn file_of(section: &str) -> String {
    let config = accepted(section);
    config.providers[0].1.file.clone().expect("the provider declares a file")
}

/// Names of the files that the program itself keeps in its cache directory.
const OWN_CACHE_FILES: [&str; 2] = ["models_dev_pricing.json", "pricing_sources.json"];

#[test]
fn a_bare_vendor_file_name_resolves_under_the_jcode_cache_dir() {
    let path = file_of("[providers.deepseek]\nfile = \"deepseek.json\"\n");
    assert_eq!(path, format!("{CACHE_DIR}/deepseek.json"));
}

/// Anything that is not a bare name is a path, used as written. `~` is the one
/// expansion. A `file://` value is just such a path-like string.
#[test]
fn config_pricing_provider_tests_a_non_bare_value_is_a_path_used_as_written() {
    assert_eq!(
        file_of("[providers.deepseek]\nfile = \"/opt/jcode/prices.json\"\n"),
        "/opt/jcode/prices.json"
    );
    assert_eq!(
        file_of("[providers.deepseek]\nfile = \"pricing/prices.json\"\n"),
        "pricing/prices.json"
    );
    assert_eq!(
        file_of("[providers.deepseek]\nfile = \"~/prices.json\"\n"),
        format!("{HOME}/prices.json")
    );
    let path = file_of("[providers.deepseek]\nfile = \"file:///opt/jcode/prices.json\"\n");
    assert_eq!(path, "file:///opt/jcode/prices.json");
    assert!(
        !path.starts_with(HOME),
        "a file:// value must not be cache-resolved: {path:?}"
    );
}

#[test]
fn an_empty_vendor_file_is_rejected() {
    let err = refused("[providers.deepseek]\nfile = \"\"\n");
    assert_eq!(err.field_path, "pricing.providers.deepseek.file");
    assert!(
        err.message.contains("empty"),
        "the error must say what is wrong: {}",
        err.to_text()
    );
}

#[test]
fn config_pricing_provider_tests_a_bare_name_may_not_shadow_a_jcode_cache_file() {
    for name in OWN_CACHE_FILES {
        let err = refused(&format!("[providers.deepseek]\nfile = \"{name}\"\n"));
        assert_eq!(err.field_path, "pricing.providers.deepseek.file");
        assert!(err.message.contains(name), "the clash must be named: {}", err.to_text());
    }
}

#[test]
fn a_namespaced_jcode_cache_name_is_refused_as_a_bare_vendor_file() {
    for name in [
        "openrouter_models.json",
        "deepseek_models.json",
        "openai-compatible_models.json",
        "openrouter_endpoints_gpt-4o.json",
        "session_search_claude_index_v2.bin",
    ] {
        let err = refused(&format!("[providers.deepseek]\nfile = \"{name}\"\n"));
        assert_eq!(err.field_path, "pricing.providers.deepseek.file");
        assert!(err.message.contains(name), "the clash must be named: {}", err.to_text());
    }
}

#[test]
fn config_pricing_provider_tests_a_guarded_cache_name_as_a_non_bare_path_is_accepted() {
    let names = OWN_CACHE_FILES.iter().copied().chain([
        "openrouter_models.json",
        "deepseek_models.json",
        "openrouter_endpoints_gpt-4o.json",
        "session_search_claude_index_v2.bin",
    ]);
    for name in names {
        let raw = format!("./{name}");
        assert_eq!(
            file_of(&format!("[providers.deepseek]\nfile = \"{raw}\"\n")),
            raw,
            "a non-bare path is used as written, never cache-resolved"
        );
    }
}

#[test]
fn a_vendor_currency_is_normalized_and_defaults_to_usd() {
    let config = accepted("[providers.deepseek]\n");
    assert!(
        config.providers[0].1.currency.is_none(),
        "an absent currency stays absent (the resolver defaults to USD)"
    );

    let config = accepted("[providers.deepseek]\ncurrency = \"cny\"\n");
    assert_eq!(config.providers[0].1.currency, Some(Currency::new("CNY")));

    let (_, warnings) = check("[providers.deepseek]\ncurrency = \"zzz\"\n")
        .expect("an unknown code is accepted");
    assert!(
        warnings
            .iter()
            .any(|warning| warning.contains("pricing.providers.deepseek.currency")),
        "an unknown currency warns with its path: {warnings:?}"
    );
}

#[test]
fn a_vendor_file_alone_is_not_empty() {
    let config = accepted("[providers.deepseek]\nfile = \"/a.json\"\n");
    assert!(
        !config.is_empty(),
        "a configured vendor file means the section is configured"
    );
}

// ---- `[[pricing.sources]]` ----

fn sources_of(section: &str) -> Vec<PricingSource> {
    accepted(section).sources
}

fn ids_of(sources: &[PricingSource]) -> Vec<&str> {
    sources.iter().map(|source| source.id.as_str()).collect()
}

#[test]
fn sources_resolve_by_priority_then_id_whatever_the_file_order_is() {
    let sources = sources_of(
        r#"
        [[sources]]
        id = "zeta"
        file = "/prices/zeta.json"
        priority = 5

        [[sources]]
        id = "alpha"
        file = "/prices/alpha.json"
        priority = 5

        [[sources]]
        id = "first"
        file = "/prices/first.json"
        priority = -3
        "#,
    );
    assert_eq!(
        ids_of(&sources),
        vec!["first", "alpha", "zeta"],
        "priority ascending, ties by id"
    );
    assert_eq!(sources[0].priority, -3);
}

#[test]
fn sources_written_in_another_order_resolve_alike() {
    let a = "[[sources]]\nid = \"a\"\nfile = \"/one.json\"\npriority = 2\n";
    let b = "[[sources]]\nid = \"b\"\nfile = \"/two.json\"\npriority = 1\n";
    let c = "[[sources]]\nid = \"c\"\nfile = \"/three.json\"\npriority = 2\n";
    for order in [[a, b, c], [c, a, b], [b, c, a], [c, b, a]] {
        let sources = sources_of(&order.concat());
        assert_eq!(ids_of(&sources), vec!["b", "a", "c"]);
        let paths: Vec<&str> = sources.iter().map(|source| source.path.as_str()).collect();
        assert_eq!(paths, vec!["/two.json", "/one.json", "/three.json"]);
    }
}

#[test]
fn a_source_needs_a_location_but_an_id_is_optional() {
    let sources = sources_of("[[sources]]\nfile = \"/home/me/prices.json\"\n");
    assert_eq!(sources.len(), 1);
    assert_eq!(sources[0].id, "prices");

    let err = refused("[[sources]]\nid = \"a\"\n");
    assert_eq!(err.field_path, "pricing.sources[0].file");
    let err = refused("[[sources]]\nid = \"a\"\nfile = \"\"\n");
    assert_eq!(err.field_path, "pricing.sources[0].file");

    let sources = sources_of("[[sources]]\nid = \"corp\"\nfile = \"/home/me/prices.json\"\n");
    assert_eq!(sources[0].id, "corp");
    let err = refused("[[sources]]\nid = \"\"\nfile = \"/home/me/prices.json\"\n");
    assert_eq!(err.field_path, "pricing.sources[0].id");
}

/// A derived id must be a property of the file, and two entries without an id
/// must each get their own.
#[test]
fn an_id_is_derived_from_the_location_and_is_stable_across_loads() {
    let section = "[[sources]]\nfile = \"/opt/jcode/models_dev.mirror.json\"\n";
    assert_eq!(sources_of(section)[0].id, "models_dev.mirror");
    assert_eq!(sources_of(section)[0].id, "models_dev.mirror");

    assert_eq!(sources_of("[[sources]]\nfile = \"prices.json\"\n")[0].id, "prices");
    assert_eq!(
        sources_of("[[sources]]\nfile = \"sub/dir/prices.json\"\n")[0].id,
        "prices"
    );

    assert_eq!(sources_of("[[sources]]\nfile = \"/\"\n")[0].id, "source1");

    let sources = sources_of(
        r#"
        [[sources]]
        file = "/one/prices.json"

        [[sources]]
        file = "/two/prices.json"
        "#,
    );
    assert_eq!(ids_of(&sources), vec!["prices", "prices-2"]);
}

/// A derived id must yield to an explicit one, wherever the explicit entry is
/// declared.
#[test]
fn a_derived_id_never_collides_with_an_explicit_id() {
    let sources = sources_of(
        r#"
        [[sources]]
        file = "/one/prices.json"

        [[sources]]
        id = "prices"
        file = "/other/prices.json"
        "#,
    );
    assert_eq!(ids_of(&sources), vec!["prices", "prices-2"]);
    let derived = sources
        .iter()
        .find(|source| source.id == "prices-2")
        .expect("the derived one is disambiguated");
    assert_eq!(
        derived.path, "/one/prices.json",
        "the replaced name lands on the derived entry"
    );
}

#[test]
fn duplicate_explicit_source_ids_are_rejected() {
    let err = refused(
        r#"
        [[sources]]
        id = "mirror"
        file = "/a.json"

        [[sources]]
        id = "mirror"
        file = "/b.json"
        "#,
    );
    assert_eq!(err.field_path, "pricing.sources[1].id");
    assert!(err.message.contains("duplicate"), "{}", err.to_text());
}

#[test]
fn a_bare_name_resolves_under_the_jcode_cache_dir() {
    let sources = sources_of("[[sources]]\nfile = \"deepseek.json\"\n");
    assert_eq!(sources[0].path, format!("{CACHE_DIR}/deepseek.json"));
    assert_eq!(sources[0].id, "deepseek");
}

#[test]
fn config_pricing_source_tests_a_non_bare_value_is_a_path_used_as_written() {
    assert_eq!(
        sources_of("[[sources]]\nfile = \"/opt/jcode/prices.json\"\n")[0].path,
        "/opt/jcode/prices.json"
    );
    assert_eq!(
        sources_of("[[sources]]\nfile = \"pricing/prices.json\"\n")[0].path,
        "pricing/prices.json"
    );
    assert_eq!(
        sources_of("[[sources]]\nfile = \"~/prices.json\"\n")[0].path,
        format!("{HOME}/prices.json")
    );
    let path = sources_of("[[sources]]\nfile = \"file:///opt/jcode/prices.json\"\n")[0]
        .path
        .clone();
    assert_eq!(path, "file:///opt/jcode/prices.json");
    assert!(
        !path.starts_with(HOME),
        "a file:// value must not be cache-resolved: {path:?}"
    );
}

#[test]
fn config_pricing_source_tests_a_bare_name_may_not_shadow_a_jcode_cache_file() {
    for name in OWN_CACHE_FILES {
        let err = refused(&format!("[[sources]]\nid = \"a\"\nfile = \"{name}\"\n"));
        assert_eq!(err.field_path, "pricing.sources[0].file");
        assert!(err.message.contains(name), "the clash must be named: {}", err.to_text());
    }
}

#[test]
fn a_namespaced_jcode_cache_name_is_refused_as_a_bare_source() {
    for name in [
        "openrouter_models.json",
        "deepseek_models.json",
        "openai-compatible_models.json",
        "openrouter_endpoints_gpt-4o.json",
        "session_search_claude_index_v2.bin",
    ] {
        let err = refused(&format!("[[sources]]\nid = \"a\"\nfile = \"{name}\"\n"));
        assert_eq!(err.field_path, "pricing.sources[0].file");
        assert!(err.message.contains(name), "the clash must be named: {}", err.to_text());
    }
}

#[test]
fn config_pricing_source_tests_a_guarded_cache_name_as_a_non_bare_path_is_accepted() {
    let names = OWN_CACHE_FILES.iter().copied().chain([
        "openrouter_models.json",
        "deepseek_models.json",
        "openrouter_endpoints_gpt-4o.json",
        "session_search_claude_index_v2.bin",
    ]);
    for name in names {
        let raw = format!("./{name}");
        let sources = sources_of(&format!("[[sources]]\nid = \"a\"\nfile = \"{raw}\"\n"));
        assert_eq!(
            sources[0].path, raw,
            "a non-bare path is used as written, never cache-resolved"
        );
    }
}

#[test]
fn the_format_defaults_to_models_dev_v1_and_anything_else_is_rejected() {
    let sources = sources_of("[[sources]]\nid = \"a\"\nfile = \"/a.json\"\n");
    assert_eq!(sources[0].path, "/a.json");

    let sources =
        sources_of("[[sources]]\nid = \"a\"\nfile = \"/a.json\"\nformat = \"models_dev_v1\"\n");
    assert_eq!(sources[0].id, "a");

    let err = refused("[[sources]]\nid = \"a\"\nfile = \"/a.json\"\nformat = \"csv\"\n");
    assert_eq!(err.field_path, "pricing.sources[0].format");
}

#[test]
fn an_empty_scope_or_model_entry_is_rejected() {
    let err = refused(
        "[[sources]]\nid = \"a\"\nfile = \"/a.json\"\nscope = [\"deepseek\", \" \"]\n",
    );
    assert_eq!(err.field_path, "pricing.sources[0].scope[1]");

    let err = refused("[[sources]]\nid = \"a\"\nfile = \"/a.json\"\nmodels = [\"\"]\n");
    assert_eq!(err.field_path, "pricing.sources[0].models[0]");
}

#[test]
fn a_source_currency_is_normalized_and_defaults_to_usd() {
    let sources = sources_of("[[sources]]\nid = \"a\"\nfile = \"/a.json\"\n");
    assert!(sources[0].currency.is_usd());

    let sources = sources_of("[[sources]]\nid = \"a\"\nfile = \"/a.json\"\ncurrency = \"cny\"\n");
    assert_eq!(sources[0].currency, Currency::new("CNY"));

    let (_, warnings) =
        check("[[sources]]\nid = \"a\"\nfile = \"/a.json\"\ncurrency = \"zzz\"\n")
            .expect("an unknown code is accepted");
    assert!(
        warnings
            .iter()
            .any(|warning| warning.contains("pricing.sources[0].currency")),
        "an unknown currency warns with its path: {warnings:?}"
    );
}

#[test]
fn a_sources_only_section_is_not_empty() {
    let config = accepted("[[sources]]\nid = \"a\"\nfile = \"/a.json\"\n");
    assert!(
        !config.is_empty(),
        "a configured source means the section is configured"
    );
}

// ---- the written section ----

fn json_of(text: &str) -> serde_json::Value {
    serde_json::from_str(text).expect("the text is JSON")
}

#[test]
fn absent_section_parses_to_empty_default() {
    let parsed = parse_toml("");
    assert!(parsed.is_empty());
    assert!(parsed.providers.is_empty());
    assert!(parsed.sources.is_empty());
}

#[test]
fn unknown_on_rule_expiry_is_lenient_and_falls_back_to_none() {
    let document = json_of(r#"{"providers":{"p":{"models":{"m":{"on_rule_expiry":"wat"}}}}}"#);
    let rule = read_rule(&document["providers"]["p"]["models"]["m"]).expect("model");
    assert_eq!(rule.on_rule_expiry, None);
    assert_eq!(OnRuleExpiry::default(), OnRuleExpiry::Fallback);
}

#[test]
fn partial_cost_is_allowed_at_parse_time() {
    let document = json_of(r#"{"providers":{"p":{"models":{"m":{"cost":{"output":1.0}}}}}}"#);
    let rule = read_rule(&document["providers"]["p"]["models"]["m"]).expect("model");
    let cost = rule.cost.expect("cost");
    assert!(cost.input.is_none());
    assert_eq!(cost.output.map(|number| number.rate), Some(rate(1.0)));
}

// ---- single messages and edges ----

fn clock(hour: u32, minute: u32) -> ClockTime {
    ClockTime { secs: hour * 3600 + minute * 60, nanos: 0 }
}

#[test]
fn every_refusal_names_its_line_and_says_why() {
    let cases: [(&str, &str, &str); 6] = [
        ("[fx_rates]\nCNY = -7.2\n", "pricing.fx_rates.CNY", "positive"),
        (
            "[providers.p.models.m.tariffs.t]\nmultiplier = -2.0\n",
            "pricing.providers.p.models.m.tariffs.t",
            "multiplier must be positive and finite, got -2",
        ),
        (
            "[[providers.p.models.m.schedule]]\ntariff = \"x\"\n",
            "pricing.providers.p.models.m.schedule[0].tariff",
            "unknown tariff `x`",
        ),
        (
            "[providers.p.models.m]\ndefault_tariff = \"x\"\n",
            "pricing.providers.p.models.m.default_tariff",
            "unknown tariff `x`",
        ),
        (
            "[providers.p.models.m]\neffective_from = \"soon\"\n",
            "pricing.providers.p.models.m.effective_from",
            "expected an RFC 3339 timestamp, got `soon`",
        ),
        (
            "[[sources]]\nfile = \"/a.json\"\nformat = \"csv\"\n",
            "pricing.sources[0].format",
            "unknown source format `csv`",
        ),
    ];
    for (section, path, words) in cases {
        let err = refused(section);
        assert_eq!(err.field_path, path);
        assert!(err.message.contains(words), "{}", err.to_text());
        assert_eq!(err.to_text(), format!("{}: {}", err.field_path, err.message));
    }
}

#[test]
fn weekday_names_stand_for_one_day_each() {
    let days = [
        ("Mon", Weekday::Mon),
        ("tuesday", Weekday::Tue),
        ("WED", Weekday::Wed),
        ("Thursday", Weekday::Thu),
        ("fri", Weekday::Fri),
        ("saturday", Weekday::Sat),
        ("Sun", Weekday::Sun),
    ];
    for (name, day) in days {
        assert_eq!(parse_weekday(name, "here").expect("a weekday"), day);
    }
    let err = parse_weekday("Funday", "here").expect_err("no weekday");
    assert_eq!(err.field_path, "here");
    assert!(err.message.contains("Funday"));
}

#[test]
fn a_window_has_to_be_longer_than_nothing() {
    assert!(window_between(clock(1, 0), clock(1, 0), "w").is_err());
    let window = window_between(clock(1, 0), clock(4, 0), "w").expect("a window");
    assert!(!window.wraps_midnight());
}

#[test]
fn bare_names_and_home_paths_are_told_apart() {
    assert!(is_bare_name("prices.json"));
    assert!(!is_bare_name("a/prices.json"));
    assert!(!is_bare_name("a\\prices.json"));
    assert!(!is_bare_name("~"));
    assert!(!is_bare_name(""));

    let home = Some("/home/me".to_string());
    assert_eq!(expand_tilde("~/a.json", &home), "/home/me/a.json");
    assert_eq!(expand_tilde("/a.json", &home), "/a.json");
    assert_eq!(expand_tilde("~/a.json", &None), "~/a.json");

    assert_eq!(derive_source_id("/opt/prices.json", 0), "prices");
    assert_eq!(derive_source_id("/", 4), "source5");
}

#[test]
fn a_location_with_blank_ends_is_read_without_them() {
    let sources = sources_of("[[sources]]\nid = \"a\"\nfile = \"  /a.json \"\n");
    assert_eq!(sources[0].path, "/a.json");
}
