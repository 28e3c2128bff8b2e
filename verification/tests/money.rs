//! Conversion between currencies, and how amounts are shown.

use jcode_pricing::currency::Currency;
use jcode_pricing::entry::RuleOutOfEffect;
use jcode_pricing::fx::{convert, plan_conversion, Conversion, FxTable, Money};
use jcode_pricing::money_display::{
    format_amount, note_primary, note_pricing_problems, summarize, DisplayAmount, DisplayTarget,
    PricingNotice,
};
use jcode_pricing::provider_activity::{Buckets, ProviderSpend};
use jcode_pricing::rate::Rate;
use jcode_pricing::rule_types::{PricingConfig, PricingConfigError};
use jcode_pricing::source_registry::OutOfEffectNotice;
use jcode_pricing::spend_summary::{spend_rows, spend_summary_row};

fn rate(value: f64) -> Rate {
    Rate { bits: value.to_bits() }
}

fn number(rate: Rate) -> f64 {
    f64::from_bits(rate.bits)
}

fn money(amount: f64, code: &str) -> Money {
    Money::new(rate(amount), Currency::new(code))
}

fn table(rates: &[(&str, f64)]) -> FxTable {
    let rates = rates.iter().map(|(code, value)| (Currency::new(code), rate(*value))).collect();
    FxTable::new(Currency::usd(), rates)
}

/// The value of the quotient that a conversion asks for.
fn quotient(conversion: Conversion, amount: Rate) -> Rate {
    match conversion {
        Conversion::Through { from, to } => rate(number(amount) / number(from) * number(to)),
        _ => rate(0.0),
    }
}

fn converted(from: &Money, target: &str, fx: &FxTable) -> Option<Money> {
    let target = Currency::new(target);
    let plan = plan_conversion(&from.currency, &target, fx);
    convert(from, &target, fx, quotient(plan, from.amount))
}

/// The quotients of the buckets, and the sums of the rows they are shown in.
fn numbers(target: &DisplayTarget, buckets: &Vec<Money>) -> (Vec<Rate>, Vec<Rate>) {
    let quotients: Vec<Rate> = buckets
        .iter()
        .map(|bucket| quotient(target.plan(&bucket.currency), bucket.amount))
        .collect();
    let sums = target
        .merge_buckets(buckets, &quotients)
        .iter()
        .map(|row| rate(row.parts.iter().map(|part| number(*part)).fold(0.0, |a, b| a + b)))
        .collect();
    (quotients, sums)
}

fn shown(target: &DisplayTarget, buckets: Vec<Money>) -> Vec<DisplayAmount> {
    let (quotients, sums) = numbers(target, &buckets);
    target.resolve_buckets(&buckets, &quotients, &sums)
}

fn totals(target: &DisplayTarget, buckets: Vec<Money>) -> Vec<DisplayAmount> {
    let (quotients, sums) = numbers(target, &buckets);
    target.resolve_totals(&buckets, &quotients, &sums)
}

fn line(rows: &Vec<DisplayAmount>, decimals: usize) -> String {
    let text = match rows.first() {
        Some(row) => format!("{:.*}", decimals, number(row.amount)),
        None => String::new(),
    };
    summarize(rows, &text)
}

// ---- conversion ----

fn fx() -> FxTable {
    table(&[("CNY", 7.2), ("EUR", 0.9)])
}

#[test]
fn convert_uses_base_rates() {
    let cny = converted(&money(10.0, "USD"), "CNY", &fx()).expect("USD -> CNY");
    assert!((number(cny.amount) - 72.0).abs() < 1e-9, "got {cny:?}");
    assert_eq!(cny.currency.as_str(), "CNY");

    let usd = converted(&money(72.0, "CNY"), "USD", &fx()).expect("CNY -> USD");
    assert!((number(usd.amount) - 10.0).abs() < 1e-9, "got {usd:?}");

    // Through the base, never a hardcoded pair: 7.2 CNY = 1 USD = 0.9 EUR.
    let eur = converted(&money(7.2, "CNY"), "EUR", &fx()).expect("CNY -> EUR");
    assert!((number(eur.amount) - 0.9).abs() < 1e-9, "got {eur:?}");
}

#[test]
fn base_currency_ratio_is_one() {
    assert_eq!(fx().ratio(&Currency::usd()), Some(rate(1.0)));
    assert_eq!(fx().ratio(&Currency::new("usd")), Some(rate(1.0)));
    assert_eq!(fx().ratio(&Currency::new("CNY")), Some(rate(7.2)));
}

#[test]
fn missing_rate_is_not_guessed() {
    assert_eq!(fx().ratio(&Currency::new("JPY")), None);
    assert!(!fx().can_convert(&Currency::new("JPY"), &Currency::usd()));
    assert!(
        converted(&money(100.0, "JPY"), "USD", &fx()).is_none(),
        "a currency with no rate must not be converted"
    );
    assert!(
        converted(&money(1.0, "USD"), "JPY", &fx()).is_none(),
        "a target with no rate must not be invented"
    );
}

#[test]
fn identity_conversion_needs_no_rate_entry() {
    let same = converted(&money(3.5, "XYZ"), "XYZ", &table(&[])).expect("identity");
    assert_eq!(same.amount, rate(3.5));
    assert_eq!(same.currency.as_str(), "XYZ");
}

#[test]
fn a_rate_that_is_no_positive_number_is_no_rate() {
    for bad in [0.0, -1.0, f64::NAN, f64::INFINITY] {
        assert_eq!(table(&[("CNY", bad)]).ratio(&Currency::new("CNY")), None);
    }
    assert!(
        converted(&money(f64::MAX, "USD"), "CNY", &fx()).is_none(),
        "an amount that is not finite is no amount"
    );
}

// ---- display ----

fn usd_table() -> FxTable {
    table(&[("CNY", 7.2), ("EUR", 0.92)])
}

fn target(code: &str, fx: FxTable) -> DisplayTarget {
    DisplayTarget::new(Some(Currency::new(code)), fx)
}

#[test]
fn native_shows_original_currency_and_never_a_dollar_sign() {
    let rows = shown(&DisplayTarget::native(), vec![money(8.0, "CNY"), money(1.5, "USD")]);
    assert_eq!(rows.len(), 2, "one row per currency: {rows:?}");
    assert_eq!(rows[0].currency.as_str(), "CNY");
    assert!((number(rows[0].amount) - 8.0).abs() < 1e-9);
    assert!(rows[0].note.is_none(), "native mode needs no rate");
    assert_eq!(rows[1].currency.as_str(), "USD");

    assert_eq!(format_amount("8.00", &Currency::new("CNY")), "CNY 8.00");
    assert_eq!(format_amount("1.50", &Currency::usd()), "$1.50");
    assert!(
        !format_amount("8.00", &Currency::new("CNY")).contains('$'),
        "a CNY amount must not be labelled with a dollar sign"
    );
}

#[test]
fn display_conversion_uses_the_target_currency() {
    let rows = shown(&target("CNY", usd_table()), vec![money(10.0, "USD")]);
    assert_eq!(rows.len(), 1, "converted amounts merge into one row: {rows:?}");
    assert_eq!(rows[0].currency.as_str(), "CNY");
    assert!((number(rows[0].amount) - 72.0).abs() < 1e-9, "got {rows:?}");
    assert!(rows[0].note.is_none());
}

#[test]
fn missing_rate_falls_back_to_native_with_warning() {
    let target = target("EUR", table(&[("CNY", 7.2)]));
    let row = target.resolve(rate(8.0), &Currency::new("CNY"), rate(0.0));
    assert_eq!(row.currency.as_str(), "CNY", "falls back to native");
    assert_eq!(row.amount, rate(8.0), "native amount is untouched");
    let note = row.note.as_deref().expect("a warning about the missing rate");
    assert!(note.contains("EUR"), "the note names the target: {note}");
    assert_eq!(line(&vec![row], 2), "CNY 8.00 (no EUR rate)");
}

#[test]
fn unpriceable_bucket_does_not_poison_the_convertible_ones() {
    let target = target("CNY", table(&[("CNY", 7.2)]));
    let rows = shown(&target, vec![money(500.0, "JPY"), money(1.0, "USD")]);
    assert_eq!(rows.len(), 2, "{rows:?}");
    let jpy = rows.iter().find(|row| row.currency.as_str() == "JPY").unwrap();
    assert!((number(jpy.amount) - 500.0).abs() < 1e-9);
    assert_eq!(jpy.note.as_deref(), Some("no CNY rate"));
    let cny = rows.iter().find(|row| row.currency.as_str() == "CNY").unwrap();
    assert!((number(cny.amount) - 7.2).abs() < 1e-9);
}

#[test]
fn summarize_shows_the_primary_amount_and_counts_the_rest() {
    let rows = shown(
        &DisplayTarget::native(),
        vec![money(8.0, "CNY"), money(1.0, "EUR"), money(0.42, "USD")],
    );
    assert_eq!(line(&rows, 4), "CNY 8.0000 +2 more");
    assert_eq!(line(&Vec::new(), 4), "");
}

/// A row that already explains a missing FX rate keeps that explanation.
#[test]
fn note_primary_appends_without_losing_the_rate_note() {
    let mut rows = totals(&DisplayTarget::native(), vec![money(0.42, "USD")]);
    note_primary(&mut rows, "rule expired");
    assert_eq!(line(&rows, 2), "$0.42 (rule expired)");

    let mut rows = totals(&target("EUR", table(&[])), vec![money(8.0, "USD")]);
    note_primary(&mut rows, "rule expired");
    assert_eq!(line(&rows, 2), "$8.00 (no EUR rate, rule expired)");

    let mut empty: Vec<DisplayAmount> = Vec::new();
    note_primary(&mut empty, "rule expired");
    assert!(empty.is_empty());
}

/// In native mode any currency is shown as it was recorded.
#[test]
fn native_mode_leaves_every_currency_alone() {
    let rows = shown(&DisplayTarget::native(), vec![money(3.5, "eur"), money(1500.0, "JPY")]);
    assert_eq!(rows.len(), 2, "one row per currency: {rows:?}");
    assert_eq!(rows[0].currency.as_str(), "JPY", "largest first");
    assert!((number(rows[0].amount) - 1500.0).abs() < 1e-9);
    assert_eq!(rows[1].currency.as_str(), "EUR", "codes normalize to upper case");
    assert!((number(rows[1].amount) - 3.5).abs() < 1e-9);
    assert!(
        rows.iter().all(|row| row.note.is_none()),
        "native mode has no rate to be missing: {rows:?}"
    );
    assert_eq!(format_amount("1500.00", &Currency::new("JPY")), "JPY 1500.00");
    assert_eq!(format_amount("3.50", &Currency::new("EUR")), "EUR 3.50");
    assert_eq!(line(&rows, 2), "JPY 1500.00 +1 more");
}

#[test]
fn empty_session_still_renders_zero_in_a_named_currency() {
    let native = DisplayTarget::native();
    assert_eq!(native.zero_currency().as_str(), "USD");
    let native_zero = line(&totals(&native, Vec::new()), 4);
    assert_eq!(native_zero, "0.0000");
    assert!(
        !native_zero.contains('$'),
        "native mode must not invent a dollar sign for an empty total: {native_zero}"
    );

    let target = target("CNY", usd_table());
    assert_eq!(target.zero_currency().as_str(), "CNY");
    assert_eq!(line(&totals(&target, Vec::new()), 4), "CNY 0.0000");
}

#[test]
fn pricing_problems_ride_on_the_primary_amount() {
    let mut rows = totals(&DisplayTarget::native(), vec![money(1.0, "USD")]);
    let error = PricingConfigError {
        field_path: "pricing.fx_rates.CNY".to_string(),
        message: "x".to_string(),
    };
    let notice = PricingNotice::RuleOutOfEffect(RuleOutOfEffect::Expired);
    note_pricing_problems(&mut rows, Some(&notice), Some(&error));
    assert_eq!(
        line(&rows, 2),
        "$1.00 (rule expired, invalid [pricing]: pricing.fx_rates.CNY)"
    );

    let file = PricingNotice::FileOutOfEffect(OutOfEffectNotice {
        owner: "pricing source `a`".to_string(),
        reason: RuleOutOfEffect::NotYetEffective,
    });
    assert_eq!(file.label(), "rule not in effect yet (pricing source `a`)");
}

#[test]
fn the_config_names_the_display_currency() {
    let pricing = PricingConfig::default();
    for native in ["native", " Native "] {
        assert!(DisplayTarget::from_config(native, &pricing).target().is_none());
    }
    let target = DisplayTarget::from_config("cny", &pricing);
    assert_eq!(target.target().map(Currency::as_str), Some("CNY"));
    assert!(target.fx().base.is_usd());
}

// ---- the spend rows of the usage view ----

fn bucket_money(buckets: &Buckets) -> Vec<Money> {
    buckets
        .entries
        .iter()
        .map(|(code, terms)| {
            let sum = terms.iter().map(|term| number(*term)).fold(0.0, |a, b| a + b);
            money(sum, code)
        })
        .collect()
}

fn usage(spend: &ProviderSpend, target: &DisplayTarget) -> Vec<(String, String)> {
    let rows = spend_rows(
        &shown(target, bucket_money(&spend.day)),
        &shown(target, bucket_money(&spend.month_spend)),
        &shown(target, bucket_money(&spend.all_time)),
    );
    let several = rows.len() > 1;
    let text = |amount: Rate| format!("{:.2}", number(amount));
    rows.iter()
        .map(|row| {
            spend_summary_row(row, several, &text(row.day), &text(row.month), &text(row.all_time))
        })
        .collect()
}

#[test]
fn usage_renders_per_currency() {
    let mut spend = ProviderSpend::default();
    spend.accrue(&Currency::new("cny"), rate(8.0));
    spend.accrue(&Currency::usd(), rate(1.5));

    let rows = usage(&spend, &DisplayTarget::native());
    assert_eq!(rows.len(), 2, "one row per currency: {rows:?}");
    assert_eq!(rows[0].0, "Local spend (this machine) [CNY]");
    assert!(
        rows[0]
            .1
            .starts_with("CNY 8.00 today · CNY 8.00 this month · CNY 8.00 all-time"),
        "{}",
        rows[0].1
    );
    assert!(
        !rows[0].1.contains('$'),
        "a CNY row must not carry a dollar sign: {}",
        rows[0].1
    );
    assert_eq!(rows[1].0, "Local spend (this machine) [USD]");
    assert!(rows[1].1.starts_with("$1.50 today"), "{}", rows[1].1);
}

#[test]
fn usage_renders_the_mirror_free_usd_only_window_as_one_row() {
    let mut spend = ProviderSpend::default();
    spend.accrue(&Currency::usd(), rate(1.5));
    let rows = usage(&spend, &DisplayTarget::native());
    assert_eq!(rows.len(), 1, "{rows:?}");
    assert_eq!(rows[0].0, "Local spend (this machine)");
    assert_eq!(rows[0].1, "$1.50 today · $1.50 this month · $1.50 all-time");
}

#[test]
fn usage_converts_to_the_configured_display_currency() {
    let mut spend = ProviderSpend::default();
    spend.accrue(&Currency::new("cny"), rate(8.0));
    spend.accrue(&Currency::usd(), rate(1.5));
    let rows = usage(&spend, &target("CNY", table(&[("CNY", 7.2)])));
    assert_eq!(rows.len(), 1, "converted windows merge: {rows:?}");
    assert_eq!(rows[0].0, "Local spend (this machine)");
    assert!(
        rows[0].1.starts_with("CNY 18.80 today"),
        "1.5 USD = 10.80 CNY, plus the 8.00 CNY bucket: {}",
        rows[0].1
    );
}

#[test]
fn usage_falls_back_to_native_when_the_display_currency_has_no_rate() {
    let mut spend = ProviderSpend::default();
    spend.accrue(&Currency::new("cny"), rate(8.0));
    let rows = usage(&spend, &target("EUR", table(&[])));
    assert_eq!(rows.len(), 1, "{rows:?}");
    assert_eq!(rows[0].0, "Local spend (this machine)");
    assert!(rows[0].1.starts_with("CNY 8.00 today"), "{}", rows[0].1);
    assert!(
        rows[0].1.ends_with("(no EUR rate)"),
        "the row must say the conversion was impossible: {}",
        rows[0].1
    );
}

#[test]
fn a_row_holds_exactly_the_amounts_of_its_currency() {
    let target = DisplayTarget::new(Some(Currency::new("CNY")), fx());
    let buckets = vec![money(7.2, "CNY"), money(4.0, "JPY"), money(1.0, "USD")];
    let (quotients, _) = numbers(&target, &buckets);
    let rows = target.merge_buckets(&buckets, &quotients);
    let parts = |code: &str| -> Vec<f64> {
        let row = rows.iter().find(|row| row.currency.as_str() == code).expect("a row");
        row.parts.iter().map(|part| number(*part)).collect()
    };
    assert_eq!(rows.len(), 2);
    assert_eq!(parts("CNY"), vec![7.2, 7.2], "the converted amount joins the native one");
    assert_eq!(parts("JPY"), vec![4.0]);
}

#[test]
fn display_order_does_not_depend_on_the_order_of_the_buckets() {
    let target = DisplayTarget::native();
    let one = shown(&target, vec![money(3.0, "EUR"), money(5.0, "CNY"), money(3.0, "BRL")]);
    let two = shown(&target, vec![money(3.0, "BRL"), money(3.0, "EUR"), money(5.0, "CNY")]);
    let codes = |rows: &Vec<DisplayAmount>| -> Vec<String> {
        rows.iter().map(|row| row.currency.as_str().to_string()).collect()
    };
    assert_eq!(codes(&one), vec!["CNY", "BRL", "EUR"], "largest first, ties by code");
    assert_eq!(codes(&two), codes(&one));
}
