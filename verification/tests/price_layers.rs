//! Which layer prices a call: hand-written cards, vendor files, price sheets,
//! models.dev, and what billing and the route catalog make of it.

use chrono::{TimeZone, Utc};
use jcode_pricing::call_rates::{config_call_rates, CallRateCard, ConfigCallRates};
use jcode_pricing::catalog::{
    cache_response, lookup, may_start_refresh, needs_refresh, parse_api_response, ModelTable,
    PricingCache, Sheet, CACHE_TTL_SECS, SCHEMA_VERSION,
};
use jcode_pricing::clock::Instant;
use jcode_pricing::config_types::{
    ContextTierFile, CostFile, ModelPricingRuleFile, Number, OnRuleExpiry, PricingConfigFile,
    PricingSourceFile, ProviderPricingFile, ScheduleRuleFile, TariffFile,
};
use jcode_pricing::currency::Currency;
use jcode_pricing::entry::{ModelCost, ModelPricingEntry, RuleOutOfEffect};
use jcode_pricing::file_cache::{
    check_file, FileFingerprint, FileRegistry, FileStep, FAILURE_BACKOFF_SECS, MAX_FILE_BYTES,
};
use jcode_pricing::fx::{Conversion, FxTable};
use jcode_pricing::model::find;
use jcode_pricing::price_layers::{
    config_price, configured_entry, derived_price_identity, effective_cost, effective_entry,
    effective_entry_at_size, next_fallback, resolve_card, selected_config_tariff,
    source_card_at_size, vendor_file_card_at_size, vendor_file_rule_out_of_effect, ConfigPrice,
    PriceLayers, ResolvedCard,
};
use jcode_pricing::pricing_memo::{
    pricing_config, pricing_config_error, pricing_generation, PricingMemo,
};
use jcode_pricing::pricing_section::validate;
use jcode_pricing::pricing_sources::PricingEnv;
use jcode_pricing::providers::{
    glob_matches, models_dev_provider_id, normalize_model_id, provider_key_is_known,
    provider_key_matches, unmatchable_provider_keys, Profile, VendorNames,
};
use jcode_pricing::rate::{Price, Rate};
use jcode_pricing::route_pricing::{
    cheapness_for_route, comparable_reference_cost_micros, copilot_zero_premium,
    derived_pricing_for_source_at_size, metered_pricing_for_source_at, openai_effective_auth_mode,
    openrouter_route_pricing, plan_route, AuthMode, AuthPricingMemos, AuthRoute, DualAuthProvider,
    GivenEstimates, OpenAiCredentials, OpenRouterChoice, PlanEstimates, RouteCostConfidence,
    RouteCostSource, RouteEstimate, RoutePlan, RoutePrice,
    AUTH_PRICING_MEMO_TTL_NANOS,
};
use jcode_pricing::rule_types::{CostFields, PricingConfig, ProviderPricing};
use jcode_pricing::source_registry::{
    fill_missing_cost, parse_sheet, save_catalog, sheet_rule_out_of_effect, source_card,
};
use jcode_pricing::vendor_files::{parse_vendor_file, save_vendor_catalog};

fn rate(value: f64) -> Rate {
    Rate { bits: value.to_bits() }
}

fn number(value: &toml::Value) -> Number {
    let value = match value {
        toml::Value::Integer(whole) => *whole as f64,
        other => other.as_float().expect("a number"),
    };
    Number { rate: rate(value), text: format!("{value}") }
}

fn opt_number(table: &toml::Value, key: &str) -> Option<Number> {
    table.get(key).map(number)
}

fn opt_text(table: &toml::Value, key: &str) -> Option<String> {
    table.get(key).map(|value| value.as_str().expect("a string").to_string())
}

fn texts(table: &toml::Value, key: &str) -> Vec<String> {
    match table.get(key) {
        Some(list) => list
            .as_array()
            .expect("a list")
            .iter()
            .map(|value| value.as_str().expect("a string").to_string())
            .collect(),
        None => Vec::new(),
    }
}

fn keyed<T>(table: &toml::Value, key: &str, read: fn(&toml::Value) -> T) -> Vec<(String, T)> {
    match table.get(key) {
        Some(entries) => {
            let mut read_entries: Vec<(String, T)> = entries
                .as_table()
                .expect("a table")
                .iter()
                .map(|(name, value)| (name.clone(), read(value)))
                .collect();
            read_entries.sort_by(|a, b| a.0.cmp(&b.0));
            read_entries
        }
        None => Vec::new(),
    }
}

fn listed<T>(table: &toml::Value, key: &str, read: fn(&toml::Value) -> T) -> Vec<T> {
    match table.get(key) {
        Some(list) => list.as_array().expect("a list").iter().map(read).collect(),
        None => Vec::new(),
    }
}

fn cost_file(table: &toml::Value) -> CostFile {
    CostFile {
        input: opt_number(table, "input"),
        output: opt_number(table, "output"),
        cache_read: opt_number(table, "cache_read"),
        cache_write: opt_number(table, "cache_write"),
    }
}

fn tariff_file(table: &toml::Value) -> TariffFile {
    TariffFile {
        input: opt_number(table, "input"),
        output: opt_number(table, "output"),
        cache_read: opt_number(table, "cache_read"),
        cache_write: opt_number(table, "cache_write"),
        multiplier: opt_number(table, "multiplier"),
    }
}

fn window_file(pair: &toml::Value) -> (String, String) {
    let pair = pair.as_array().expect("a pair");
    let side = |at: usize| pair[at].as_str().expect("a time").to_string();
    (side(0), side(1))
}

fn schedule_file(table: &toml::Value) -> ScheduleRuleFile {
    ScheduleRuleFile {
        tariff: opt_text(table, "tariff").unwrap_or_default(),
        utc_offset_minutes: table
            .get("utc_offset_minutes")
            .map_or(0, |value| value.as_integer().expect("minutes") as i32),
        weekdays: texts(table, "weekdays"),
        windows: listed(table, "windows", window_file),
    }
}

fn tier_file(table: &toml::Value) -> ContextTierFile {
    ContextTierFile {
        min_input_tokens: table
            .get("min_input_tokens")
            .map(|value| value.as_integer().expect("tokens") as u64),
        input: opt_number(table, "input"),
        output: opt_number(table, "output"),
        cache_read: opt_number(table, "cache_read"),
        cache_write: opt_number(table, "cache_write"),
        multiplier: opt_number(table, "multiplier"),
    }
}

fn rule_file(table: &toml::Value) -> ModelPricingRuleFile {
    ModelPricingRuleFile {
        cost: table.get("cost").map(cost_file),
        tariffs: keyed(table, "tariffs", tariff_file),
        schedule: listed(table, "schedule", schedule_file),
        context_tiers: listed(table, "context_tiers", tier_file),
        default_tariff: opt_text(table, "default_tariff"),
        effective_from: opt_text(table, "effective_from"),
        effective_until: opt_text(table, "effective_until"),
        on_rule_expiry: match table.get("on_rule_expiry").and_then(|value| value.as_str()) {
            Some("fallback") => Some(OnRuleExpiry::Fallback),
            Some("no_price") => Some(OnRuleExpiry::NoPrice),
            _ => None,
        },
    }
}

fn provider_file(table: &toml::Value) -> ProviderPricingFile {
    ProviderPricingFile {
        currency: opt_text(table, "currency"),
        file: opt_text(table, "file"),
        models: keyed(table, "models", rule_file),
    }
}

fn source_file(table: &toml::Value) -> PricingSourceFile {
    PricingSourceFile {
        id: opt_text(table, "id"),
        file: opt_text(table, "file").unwrap_or_default(),
        scope: texts(table, "scope"),
        models: texts(table, "models"),
        format: opt_text(table, "format"),
        priority: table.get("priority").map(|value| value.as_integer().expect("a rank")),
        currency: opt_text(table, "currency"),
    }
}

fn section_file(table: &toml::Value) -> PricingConfigFile {
    PricingConfigFile {
        fx_base: opt_text(table, "fx_base"),
        fx_rates: keyed(table, "fx_rates", number),
        providers: keyed(table, "providers", provider_file),
        sources: listed(table, "sources", source_file),
    }
}

fn toml_of(text: &str) -> toml::Value {
    toml::from_str(text).expect("the text is TOML")
}

const CACHE_DIR: &str = "/home/me/.jcode/cache";
const HOME: &str = "/home/me";

fn env() -> PricingEnv {
    PricingEnv {
        cache_dir: CACHE_DIR.to_string(),
        home: Some(HOME.to_string()),
        known_currencies: ["USD", "CNY", "EUR", "GBP", "JPY"]
            .iter()
            .map(|code| code.to_string())
            .collect(),
    }
}

/// A stand-in for what the runtime calls Anthropic.
fn names() -> VendorNames {
    VendorNames { key: "vendor".to_string(), title: "Vendor".to_string() }
}

fn profiles() -> Vec<Profile> {
    vec![
        Profile { id: "deepseek".to_string(), display_name: "DeepSeek".to_string() },
        Profile { id: "moonshotai".to_string(), display_name: "Moonshot AI".to_string() },
    ]
}

/// The product that a price stands for.
fn value(price: Price) -> f64 {
    let mut value = f64::from_bits(price.written.bits);
    for factor in [price.window, price.context].into_iter().flatten() {
        value *= f64::from_bits(factor.bits);
    }
    value
}

fn micros(price: Price) -> u64 {
    (value(price) * 1_000_000.0).round() as u64
}

fn opt(price: Option<Price>) -> Option<f64> {
    price.map(value)
}

/// A fixed instant, always UTC and always explicit.
fn at(year: i32, month: u32, day: u32, hour: u32, minute: u32, second: u32) -> Instant {
    let time = Utc
        .with_ymd_and_hms(year, month, day, hour, minute, second)
        .single()
        .expect("valid instant");
    Instant { secs: time.timestamp(), nanos: 0 }
}

fn instant(secs: i64) -> Instant {
    Instant { secs, nanos: 0 }
}

/// The instant of the calls that do not depend on one.
fn now() -> Instant {
    at(2026, 9, 14, 12, 0, 0)
}

fn model_cost(
    input: f64,
    output: f64,
    cache_read: Option<f64>,
    cache_write: Option<f64>,
) -> ModelCost {
    ModelCost {
        input_usd_per_mtok: rate(input),
        output_usd_per_mtok: rate(output),
        cache_read_usd_per_mtok: cache_read.map(rate),
        cache_write_usd_per_mtok: cache_write.map(rate),
    }
}

fn catalog_of(entries: &[(&str, &str, ModelCost)]) -> Option<PricingCache> {
    let mut providers: Vec<(String, ModelTable)> = Vec::new();
    for (provider, model, cost) in entries {
        let entry = ModelPricingEntry::from_model_cost(*cost);
        providers.push((
            provider.to_string(),
            ModelTable { models: vec![(model.to_string(), entry)] },
        ));
    }
    Some(PricingCache {
        schema_version: SCHEMA_VERSION,
        cached_at_unix_secs: 1_000,
        sheet: Sheet { providers },
    })
}

fn copy_table(table: &ModelTable) -> ModelTable {
    ModelTable {
        models: table.models.iter().map(|(id, entry)| (id.clone(), entry.clone())).collect(),
    }
}

fn copy_sheet(sheet: &Sheet) -> Sheet {
    Sheet {
        providers: sheet
            .providers
            .iter()
            .map(|(id, table)| (id.clone(), copy_table(table)))
            .collect(),
    }
}

/// The config of a user, the files it points at, and the copies of them.
struct World {
    config: String,
    files: Vec<(String, FileFingerprint, String)>,
    catalog: &'static [(&'static str, &'static str, f64, f64, Option<f64>)],
    sheets: FileRegistry<Sheet>,
    vendors: FileRegistry<ModelTable>,
    clock: u64,
    reads: usize,
}

/// DeepSeek at $0.66/$1.98 per Mtok, so that other numbers are unmistakable.
const MODELS_DEV: &[(&str, &str, f64, f64, Option<f64>)] =
    &[("deepseek", "deepseek-v4-pro", 0.66, 1.98, Some(0.022))];

/// models.dev's price for the canonical 25k-in/5k-out reference request.
const MODELS_DEV_REFERENCE: f64 = (0.66 * 25_000.0 + 1.98 * 5_000.0) / 1_000_000.0;

impl World {
    fn new(config: &str) -> World {
        World {
            config: config.to_string(),
            files: Vec::new(),
            catalog: MODELS_DEV,
            sheets: FileRegistry::new(),
            vendors: FileRegistry::new(),
            clock: 1_000,
            reads: 0,
        }
    }

    fn without_catalog(config: &str) -> World {
        let mut world = World::new(config);
        world.catalog = &[];
        world
    }

    fn with_file(mut self, path: &str, body: &str) -> World {
        self.write(path, body, 1);
        self
    }

    fn write(&mut self, path: &str, body: &str, mtime_nanos: u64) {
        let fingerprint = FileFingerprint { mtime_nanos, size: body.len() as u64 };
        self.files.retain(|file| file.0 != path);
        self.files.push((path.to_string(), fingerprint, body.to_string()));
    }

    fn parsed(&self) -> PricingConfig {
        let document = toml_of(&self.config);
        match document.get("pricing") {
            Some(section) => match validate(&section_file(section), &env()) {
                Ok((config, _)) => config,
                Err(_) => PricingConfig::default(),
            },
            None => PricingConfig::default(),
        }
    }

    fn file(&self, path: &str) -> Option<(FileFingerprint, String)> {
        self.files
            .iter()
            .find(|file| file.0 == path)
            .map(|file| (file.1, file.2.clone()))
    }

    /// What a lookup sees: each file as its copy, read again where it has to be.
    fn layers(&mut self) -> PriceLayers {
        let config = self.parsed();
        let mut sheets: Vec<(String, Sheet)> = Vec::new();
        for source in &config.sources {
            let found = self.file(&source.path);
            let version = found.as_ref().map(|file| file.0);
            match self.sheets.plan(&source.id, &source.path, version, self.clock) {
                FileStep::Use => {}
                FileStep::Wait => continue,
                FileStep::Read => {
                    self.reads += 1;
                    let read = match &found {
                        Some(file) => check_file(&source.path, "sheet", true, file.0.size)
                            .and_then(|_| parse_sheet(&file.1)),
                        None => Err("no such file".to_string()),
                    };
                    match read {
                        Ok(sheet) => {
                            save_catalog(
                                &mut self.sheets,
                                &source.id,
                                &source.path,
                                version,
                                sheet,
                                self.clock,
                            );
                        }
                        Err(_) => {
                            self.sheets.note_failure(&source.id, self.clock);
                            continue;
                        }
                    }
                }
            }
            let sheet = self.sheets.contents(&source.id).expect("a copy");
            sheets.push((source.id.clone(), copy_sheet(sheet)));
        }
        let mut vendor_files: Vec<(String, ModelTable)> = Vec::new();
        for (vendor, section) in &config.providers {
            let Some(path) = &section.file else { continue };
            let found = self.file(path);
            let version = found.as_ref().map(|file| file.0);
            match self.vendors.plan(vendor, path, version, self.clock) {
                FileStep::Use => {}
                FileStep::Wait => continue,
                FileStep::Read => {
                    self.reads += 1;
                    let read = match &found {
                        Some(file) => check_file(path, "file", true, file.0.size)
                            .and_then(|_| parse_vendor_file(&file.1, path)),
                        None => Err("no such file".to_string()),
                    };
                    match read {
                        Ok(models) => {
                            save_vendor_catalog(
                                &mut self.vendors,
                                vendor,
                                path,
                                version,
                                models,
                                self.clock,
                            );
                        }
                        Err(_) => {
                            self.vendors.note_failure(vendor, self.clock);
                            continue;
                        }
                    }
                }
            }
            let table = self.vendors.contents(vendor).expect("a copy");
            vendor_files.push((vendor.clone(), copy_table(table)));
        }
        let mut entries: Vec<(&str, &str, ModelCost)> = Vec::new();
        for (provider, model, input, output, cache_read) in self.catalog {
            entries.push((provider, model, model_cost(*input, *output, *cache_read, None)));
        }
        let catalog = if entries.is_empty() { None } else { catalog_of(&entries) };
        PriceLayers { config, vendor_files, sheets, catalog, names: names() }
    }

    fn cost_at(&mut self, provider: &str, model: &str, at: Instant) -> Option<(f64, String)> {
        amount(&self.layers(), provider, model, at)
    }

    fn cost(&mut self, provider: &str, model: &str) -> Option<(f64, String)> {
        self.cost_at(provider, model, now())
    }

    /// The sheet that prices the model.
    fn sheet_of(&mut self, source_key: &str, model: &str) -> Option<String> {
        let layers = self.layers();
        source_card(&layers.config.sources, &layers.sheets, source_key, model, now(), &names())
            .map(|hit| hit.source_id)
    }

    /// The vendor whose file prices the model.
    fn vendor_of(&mut self, provider: &str, model: &str) -> Option<String> {
        vendor_file_card_at_size(&self.layers(), provider, model, now(), None)
            .map(|card| card.vendor)
    }
}

/// What the canonical request costs, and in which currency.
fn amount(layers: &PriceLayers, provider: &str, model: &str, at: Instant) -> Option<(f64, String)> {
    effective_cost(layers, provider, model, at).map(|cost| {
        (
            reference_cost(value(cost.input), value(cost.output)),
            cost.currency.as_str().to_string(),
        )
    })
}

/// The canonical request: 25k in / 5k out.
fn reference_cost(input: f64, output: f64) -> f64 {
    (input * 25_000.0 + output * 5_000.0) / 1_000_000.0
}

fn close(found: &Option<(f64, String)>, expected: f64, currency: &str) -> bool {
    match found {
        Some((amount, code)) => (amount - expected).abs() < 1e-9 && code == currency,
        None => false,
    }
}

/// A complete sheet for one model.
fn sheet_body(provider: &str, model: &str, input: f64, output: f64) -> String {
    format!(
        r#"{{"{provider}":{{"models":{{"{model}":{{"cost":{{"input":{input},"output":{output}}}}}}}}}}}"#
    )
}

/// A vendor file for one model.
fn vendor_body(model: &str, input: f64, output: f64) -> String {
    format!(r#"{{"models":{{"{model}":{{"cost":{{"input":{input},"output":{output}}}}}}}}}"#)
}

/// What the tables of the caller say: each its own name.
fn given() -> GivenEstimates<&'static str> {
    GivenEstimates {
        anthropic: Some("anthropic table"),
        openai: Some("openai table"),
        openrouter: Some("openrouter caches"),
    }
}

fn nothing_given() -> GivenEstimates<&'static str> {
    GivenEstimates { anthropic: None, openai: None, openrouter: None }
}

fn metered(price: Option<RoutePrice<&'static str>>) -> RouteEstimate {
    match price {
        Some(RoutePrice::Metered(estimate)) => estimate,
        other => panic!("a metered price, got {other:?}"),
    }
}

// ---- the catalog ----

#[test]
fn parses_models_dev_shape() {
    let body = r#"{
            "deepseek": {
                "id": "deepseek",
                "models": {
                    "deepseek-v4-flash": {
                        "cost": {"input": 0.14, "output": 0.28, "cache_read": 0.0028}
                    },
                    "free-model": {"cost": {"input": 0, "output": 0}},
                    "no-cost-model": {}
                }
            },
            "anthropic": {
                "models": {
                    "fable-5": {
                        "cost": {"input": 10, "output": 50, "cache_read": 1, "cache_write": 12.5}
                    }
                }
            }
        }"#;
    let cache = cache_response(body, 1_700_000_000).expect("parsed");
    assert_eq!(cache.schema_version, SCHEMA_VERSION);
    assert_eq!(cache.cached_at_unix_secs, 1_700_000_000);
    let deepseek = find(&cache.sheet.providers, "deepseek").expect("deepseek");
    assert_eq!(deepseek.models.len(), 2, "model without cost is skipped");
    let flash = deepseek.find_model("deepseek-v4-flash").expect("flash");
    assert_eq!(flash.cost.input, Some(rate(0.14)));
    assert_eq!(flash.cost.output, Some(rate(0.28)));
    assert_eq!(flash.cost.cache_read, Some(rate(0.0028)));
    assert_eq!(flash.cost.cache_write, None);

    let fable = find(&cache.sheet.providers, "anthropic")
        .and_then(|models| models.find_model("fable-5"))
        .expect("fable");
    assert_eq!(fable.cost.input, Some(rate(10.0)));
    assert_eq!(fable.cost.output, Some(rate(50.0)));
    assert_eq!(fable.cost.cache_write, Some(rate(12.5)));
    assert!(
        fable.tariffs.is_empty(),
        "models.dev has no extension fields today"
    );
}

#[test]
fn rejects_empty_response() {
    assert!(parse_api_response("{}").is_err());
    assert!(parse_api_response("[]").is_err());
    assert!(parse_api_response("{ this is not json").is_err());
}

#[test]
fn a_model_whose_extensions_are_invalid_keeps_its_rates() {
    let extensions = [
        r#""tariffs": 3"#,
        r#""tariffs": {"peak": {}}"#,
        r#""schedule": "always""#,
        r#""schedule": [{"tariff": "missing", "windows": [["01:00", "04:00"]]}]"#,
        r#""context_tiers": [{"multiplier": 2.0}]"#,
        r#""default_tariff": "missing""#,
        r#""effective_from": "soon""#,
        r#""effective_until": 12"#,
    ];
    for extension in extensions {
        let body = format!(
            r#"{{"p":{{"models":{{"m":{{"cost":{{"input":1.5,"output":2.5,"cache_read":0.5,
                "context_over_200k":{{"input":3.0,"output":5.0}}}},{extension}}}}}}}}}"#
        );
        let sheet = parse_api_response(&body).expect(extension);
        assert_eq!(sheet.providers.len(), 1);
        let model = find(&sheet.providers, "p").and_then(|p| p.find_model("m")).expect(extension);
        assert_eq!(model.cost.input, Some(rate(1.5)));
        assert_eq!(model.cost.output, Some(rate(2.5)));
        assert_eq!(model.cost.cache_read, Some(rate(0.5)));
        assert_eq!(model.cost.cache_write, None);
        assert!(model.tariffs.is_empty() && model.schedule.is_empty());
        assert_eq!(model.default_tariff, None);
        assert_eq!((model.effective_from, model.effective_until), (None, None));
        assert_eq!(model.context_tiers.len(), 1, "the document's own long-context rates stay");
        assert_eq!(model.context_tiers[0].min_input_tokens, 200_000);
    }
}

#[test]
fn a_valid_extension_counts_beside_an_invalid_one_of_another_model() {
    let sheet = parse_api_response(
        r#"{"p":{"models":{
            "good":{"cost":{"input":1,"output":2},"tariffs":{"peak":{"multiplier":2.0}}},
            "odd":{"cost":{"input":3,"output":4},"tariffs":[]},
            "half":{"cost":{"input":3}}
        }}}"#,
    )
    .expect("parsed");
    let table = find(&sheet.providers, "p").expect("p");
    assert_eq!(table.models.len(), 2);
    assert_eq!(table.find_model("good").expect("good").tariffs.len(), 1);
    assert!(table.find_model("odd").expect("odd").tariffs.is_empty());
    assert!(table.find_model("half").is_none());
}

#[test]
fn provider_key_mapping_covers_jcode_providers() {
    let id = |key: &str| models_dev_provider_id(key, &names());
    assert_eq!(id("vendor:api-key"), Some("anthropic"));
    assert_eq!(id("openai:api-key"), Some("openai"));
    assert_eq!(id("openai-compatible:deepseek"), Some("deepseek"));
    assert_eq!(id("openai-compatible:nvidia-nim"), Some("nvidia"));
    assert_eq!(id("bedrock"), Some("amazon-bedrock"));
    assert_eq!(id("unknown-thing"), None);
}

#[test]
fn every_way_to_write_a_provider_has_one_catalog_id() {
    let id = |key: &str| models_dev_provider_id(key, &names());
    for key in ["anthropic", "vendor", "vendor:api-key", "anthropic-api", "  anthropic "] {
        assert_eq!(id(key), Some("anthropic"), "{key}");
    }
    let renamed = [
        ("kimi", "kimi-for-coding"),
        ("fireworks", "fireworks-ai"),
        ("nvidia-nim", "nvidia"),
        ("alibaba-coding-plan", "alibaba"),
        ("azure-openai", "azure"),
        ("gemini", "google"),
        ("gemini-api", "google"),
    ];
    for (key, expected) in renamed {
        assert_eq!(id(key), Some(expected));
    }
    assert!(provider_key_matches("deepseek", "openai-compatible:deepseek", &names()));
    assert!(provider_key_matches("openai-compatible:gw", "gw", &names()));
    assert!(provider_key_matches("vendor", "anthropic-api", &names()));
    assert!(!provider_key_matches("deepseek", "openrouter", &names()));
    assert!(!provider_key_matches("gw", "other", &names()));
}

#[test]
fn lookup_normalizes_model_ids() {
    let cache = catalog_of(&[
        ("anthropic", "opus-4-6", model_cost(5.0, 25.0, Some(0.5), Some(6.25))),
        ("openrouter", "kimi-k2", model_cost(0.5, 2.0, None, None)),
    ]);

    // [1m] suffix strips before lookup.
    let opus = lookup(&cache, "vendor:api-key", "opus-4-6[1m]", &names()).expect("priced");
    assert_eq!(opus.input_usd_per_mtok, rate(5.0));

    // provider/model ids fall back to the bare model name.
    let kimi = lookup(&cache, "openrouter", "moonshotai/kimi-k2", &names()).expect("priced");
    assert_eq!(kimi.output_usd_per_mtok, rate(2.0));
    let pinned = lookup(&cache, "openrouter", "moonshotai/kimi-k2@Sail Research", &names())
        .expect("priced");
    assert_eq!(pinned.output_usd_per_mtok, rate(2.0));

    assert!(lookup(&cache, "vendor:api-key", "unknown", &names()).is_none());
    assert!(lookup(&None, "openrouter", "kimi-k2", &names()).is_none());
}

#[test]
fn a_model_id_loses_its_alias_and_its_pin() {
    assert_eq!(normalize_model_id("m[1m]"), "m");
    assert_eq!(normalize_model_id("a/b@Sail Research"), "a/b");
    assert_eq!(normalize_model_id(" m @ x"), "m");
    assert_eq!(normalize_model_id("m"), "m");
}

#[test]
fn a_catalog_is_fetched_again_after_a_day() {
    assert!(needs_refresh(&None, 0));
    let cache = catalog_of(&[]);
    assert!(!needs_refresh(&cache, 1_000 + CACHE_TTL_SECS - 1));
    assert!(needs_refresh(&cache, 1_000 + CACHE_TTL_SECS));
    assert!(!needs_refresh(&cache, 0), "a clock that went back makes nothing stale");
    assert!(may_start_refresh(false, false, false));
    assert!(!may_start_refresh(false, true, false), "disabled");
    assert!(may_start_refresh(true, true, false), "forced");
    assert!(!may_start_refresh(true, false, true), "one at a time");
}

#[test]
fn the_catalogs_long_context_rates_are_a_tier() {
    let sheet = parse_api_response(
        r#"{"google":{"models":{"gemini":{"cost":{"input":1.0,"output":2.0,
            "context_over_200k":{"input":3.0,"output":4.0}}}}}}"#,
    )
    .expect("parsed");
    let layers = PriceLayers {
        config: PricingConfig::default(),
        vendor_files: Vec::new(),
        sheets: Vec::new(),
        catalog: Some(PricingCache { schema_version: 2, cached_at_unix_secs: 0, sheet }),
        names: names(),
    };
    let small = effective_entry_at_size(&layers, "gemini", "gemini", now(), Some(200_000))
        .expect("priced");
    assert_eq!(opt(small.prices.input), Some(1.0));
    let large = effective_entry_at_size(&layers, "gemini", "gemini", now(), Some(200_001))
        .expect("priced");
    assert_eq!(opt(large.prices.input), Some(3.0));
    assert_eq!(opt(large.prices.output), Some(4.0));
}

#[test]
fn glob_matching_is_case_insensitive_and_supports_star_and_question_mark() {
    assert!(glob_matches("deepseek-v4-*", "deepseek-v4-pro"));
    assert!(glob_matches("deepseek-v4-*", "DEEPSEEK-V4-PRO"));
    assert!(glob_matches("*v4*", "deepseek-v4-pro"));
    assert!(glob_matches("*", "anything"));
    assert!(glob_matches("deepseek-v4-pro", "deepseek-v4-pro"));
    assert!(glob_matches("deepseek-v?-pro", "deepseek-v4-pro"));
    assert!(!glob_matches("deepseek-v5-*", "deepseek-v4-pro"));
    assert!(!glob_matches("deepseek-v4", "deepseek-v4-pro"));
    assert!(!glob_matches("", "deepseek-v4-pro"));
    assert!(!glob_matches("deepseek-*", ""));
}

// ---- hand-written cards over models.dev ----

const HALF_WRITTEN_CNY_CARD_CONFIG: &str = r#"
[pricing.providers.deepseek]
currency = "CNY"

[pricing.providers.deepseek.models."deepseek-v4-pro".cost]
input = 4.5
"#;

const FULL_CNY_CARD_CONFIG: &str = r#"
[pricing.providers.deepseek]
currency = "CNY"

[pricing.providers.deepseek.models."deepseek-v4-pro".cost]
input = 4.5
output = 13.5
cache_read = 0.15
"#;

fn rates(layers: &PriceLayers, provider: &str, model: &str, at: Instant) -> ConfigCallRates {
    config_call_rates(layers, provider, model, at, None)
}

fn priced(rates: ConfigCallRates) -> CallRateCard {
    match rates {
        ConfigCallRates::Priced(card) => card,
        other => panic!("a complete card must price the call, got {other:?}"),
    }
}

/// A card in another currency that cannot be completed and has no layer
/// underneath it must never be rendered as a price.
#[test]
fn incomplete_foreign_currency_card_is_never_rendered_as_a_price() {
    let layers = World::without_catalog(HALF_WRITTEN_CNY_CARD_CONFIG).layers();
    assert!(
        effective_cost(&layers, "deepseek", "deepseek-v4-pro", now()).is_none(),
        "a one-sided CNY card has no displayable price"
    );
    let card = effective_entry(&layers, "deepseek", "deepseek-v4-pro", now()).expect("config card");
    assert_eq!(card.currency, Currency::new("CNY"));
    assert_eq!(opt(card.prices.input), Some(4.5));
    assert_eq!(card.prices.output, None, "no direction was invented");
    assert!(matches!(
        rates(&layers, "deepseek", "deepseek-v4-pro", now()),
        ConfigCallRates::ConfiguredWithoutPrice
    ));
}

/// No `[pricing]` section at all: exactly the models.dev numbers, in USD.
#[test]
fn empty_config_is_parity() {
    let layers = World::new("").layers();
    let raw = lookup(&layers.catalog, "openai-compatible:deepseek", "deepseek-v4-pro", &names())
        .expect("catalog entry");
    let card = effective_entry(&layers, "openai-compatible:deepseek", "deepseek-v4-pro", now())
        .expect("resolved");

    assert_eq!(card.entry.cost.input, Some(raw.input_usd_per_mtok));
    assert_eq!(card.entry.cost.output, Some(raw.output_usd_per_mtok));
    assert_eq!(card.entry.cost.cache_read, raw.cache_read_usd_per_mtok);
    assert!(card.entry.tariffs.is_empty(), "models.dev has no tariff tiers");
    assert!(card.currency.is_usd(), "models.dev values are USD");
    assert!(close(
        &amount(&layers, "openai-compatible:deepseek", "deepseek-v4-pro", now()),
        MODELS_DEV_REFERENCE,
        "USD"
    ));
}

/// A hand-written card outranks models.dev, including its currency.
#[test]
fn config_overrides_models_dev() {
    let layers = World::new(FULL_CNY_CARD_CONFIG).layers();
    assert!(close(
        &amount(&layers, "deepseek", "deepseek-v4-pro", now()),
        reference_cost(4.5, 13.5),
        "CNY"
    ));
    let card = effective_entry(&layers, "deepseek", "deepseek-v4-pro", now()).expect("card");
    assert_eq!(opt(card.prices.input), Some(4.5));
    assert_eq!(opt(card.prices.output), Some(13.5));
    assert_eq!(opt(card.prices.cache_read), Some(0.15));
    assert_eq!(
        card.prices.cache_write, None,
        "a non-USD card must not inherit USD rates from models.dev"
    );
    assert_eq!(card.currency.as_str(), "CNY");
}

/// `currency = "CNY"` describes the prices the user writes, not those that
/// models.dev publishes.
#[test]
fn currency_without_price_falls_back_as_usd() {
    let mut world = World::new("[pricing.providers.deepseek]\ncurrency = \"CNY\"\n");
    let money = world.cost("deepseek", "deepseek-v4-pro");
    assert!(close(&money, reference_cost(0.66, 1.98), "USD"), "{money:?}");
}

/// No field merge across currencies: fall back to the next layer instead.
#[test]
fn partial_foreign_currency_card_never_mixes_usd_rates() {
    let money = World::new(HALF_WRITTEN_CNY_CARD_CONFIG).cost("deepseek", "deepseek-v4-pro");
    assert!(close(&money, reference_cost(0.66, 1.98), "USD"), "{money:?}");
}

/// A USD card may merge field by field with models.dev.
#[test]
fn partial_usd_card_merges_models_dev_fields() {
    let config = r#"
[pricing.providers.deepseek.models."deepseek-v4-pro".cost]
input = 1.5
"#;
    let card = effective_entry(&World::new(config).layers(), "deepseek", "deepseek-v4-pro", now())
        .expect("merged card");
    assert_eq!(opt(card.prices.input), Some(1.5), "the written field wins");
    assert_eq!(opt(card.prices.output), Some(1.98), "missing fields fall back");
    assert_eq!(opt(card.prices.cache_read), Some(0.022));
    assert!(card.currency.is_usd());
}

/// A bare models.dev id also matches compatible profiles.
#[test]
fn config_provider_key_matches_compatible_profile() {
    let money =
        World::new(FULL_CNY_CARD_CONFIG).cost("openai-compatible:deepseek", "deepseek-v4-pro");
    assert_eq!(money.expect("profile resolves to the deepseek card").1, "CNY");
}

#[test]
fn unconfigured_provider_currency_is_usd() {
    let mut world = World::new("[display]\ncurrency = \"native\"\n");
    assert_eq!(world.cost("deepseek", "deepseek-v4-pro").expect("priced").1, "USD");
    assert!(
        world.cost("unknown-provider", "whatever").is_none(),
        "no config rule and no catalog mapping means no price"
    );
}

const EXPIRED_CARD_CONFIG: &str = r#"
[pricing.providers.deepseek]
currency = "CNY"

[pricing.providers.deepseek.models."deepseek-v4-pro"]
effective_until = "2020-01-01T00:00:00Z"

[pricing.providers.deepseek.models."deepseek-v4-pro".cost]
input = 4.5
output = 13.5
"#;

const EXPIRED_NO_PRICE_CONFIG: &str = r#"
[pricing.providers.deepseek]
currency = "CNY"

[pricing.providers.deepseek.models."deepseek-v4-pro"]
effective_until = "2020-01-01T00:00:00Z"
on_rule_expiry = "no_price"

[pricing.providers.deepseek.models."deepseek-v4-pro".cost]
input = 4.5
output = 13.5
"#;

#[test]
fn expired_rule_falls_back() {
    let money = World::new(EXPIRED_CARD_CONFIG).cost("deepseek", "deepseek-v4-pro");
    assert!(
        close(&money, reference_cost(0.66, 1.98), "USD"),
        "the CNY card must not leak its currency: {money:?}"
    );
}

#[test]
fn expired_rule_no_price_suppresses_price() {
    assert!(
        World::new(EXPIRED_NO_PRICE_CONFIG).cost("deepseek", "deepseek-v4-pro").is_none(),
        "no_price must suppress the models.dev fallback too"
    );
}

#[test]
fn not_yet_effective_rule_falls_back() {
    let config = EXPIRED_CARD_CONFIG.replace(
        "effective_until = \"2020-01-01T00:00:00Z\"",
        "effective_from = \"2999-01-01T00:00:00Z\"",
    );
    let money = World::new(&config).cost("deepseek", "deepseek-v4-pro");
    assert!(close(&money, reference_cost(0.66, 1.98), "USD"), "{money:?}");
}

// ---- billing ----

/// Peak is UTC 01:00-04:00 on weekdays, 10x off-peak.
const PEAK_CARD_CONFIG: &str = r#"
[pricing.providers.deepseek.models."deepseek-v4-pro"]
default_tariff = "off_peak"

[pricing.providers.deepseek.models."deepseek-v4-pro".cost]
input = 1.0
output = 2.0

[pricing.providers.deepseek.models."deepseek-v4-pro".tariffs.off_peak]
input = 1.0
output = 2.0

[pricing.providers.deepseek.models."deepseek-v4-pro".tariffs.peak]
multiplier = 10.0

[[pricing.providers.deepseek.models."deepseek-v4-pro".schedule]]
tariff = "peak"
utc_offset_minutes = 0
weekdays = ["Mon", "Tue", "Wed", "Thu", "Fri"]
windows = [["01:00", "04:00"]]
"#;

/// 2026-09-14T00:59:59Z (Monday): one second before the peak window opens.
const ONE_SECOND_BEFORE_PEAK: i64 = 1_789_347_599;
/// 2026-09-14T01:30:00Z (Monday): inside the peak window.
const INSIDE_PEAK: i64 = 1_789_349_400;

#[test]
fn complete_config_card_is_priced_in_its_own_currency() {
    let layers = World::without_catalog(FULL_CNY_CARD_CONFIG).layers();
    let card = priced(rates(&layers, "deepseek", "deepseek-v4-pro", now()));
    assert_eq!(card.currency, Currency::new("CNY"));
    assert_eq!(value(card.input_per_mtok), 4.5);
    assert_eq!(value(card.output_per_mtok), 13.5);
    assert_eq!(opt(card.cache_read_per_mtok), Some(0.15));
}

#[test]
fn tariff_in_effect_at_the_call_instant_is_the_one_priced() {
    let layers = World::without_catalog(PEAK_CARD_CONFIG).layers();
    let off_peak =
        priced(rates(&layers, "deepseek", "deepseek-v4-pro", instant(ONE_SECOND_BEFORE_PEAK)));
    assert_eq!(value(off_peak.input_per_mtok), 1.0);

    let peak = priced(rates(&layers, "deepseek", "deepseek-v4-pro", instant(INSIDE_PEAK)));
    assert_eq!(value(peak.input_per_mtok), 10.0);
    assert_eq!(value(peak.output_per_mtok), 20.0);
}

#[test]
fn without_a_configured_rule_the_answer_is_absent() {
    let layers = World::without_catalog("[display]\ncurrency = \"native\"\n").layers();
    assert!(matches!(
        rates(&layers, "deepseek", "deepseek-v4-pro", now()),
        ConfigCallRates::Absent
    ));
}

#[test]
fn incomplete_foreign_currency_card_is_reported_instead_of_priced() {
    let layers = World::without_catalog(HALF_WRITTEN_CNY_CARD_CONFIG).layers();
    assert!(matches!(
        rates(&layers, "deepseek", "deepseek-v4-pro", now()),
        ConfigCallRates::ConfiguredWithoutPrice
    ));
}

#[test]
fn foreign_currency_card_that_loses_to_the_catalog_is_absent() {
    let layers = World::new(HALF_WRITTEN_CNY_CARD_CONFIG).layers();
    assert!(matches!(
        rates(&layers, "deepseek", "deepseek-v4-pro", now()),
        ConfigCallRates::Absent
    ));
    assert!(configured_entry(&layers, "deepseek", "deepseek-v4-pro", now()).is_none());
}

#[test]
fn expired_rule_with_no_price_is_reported_instead_of_priced() {
    let layers = World::new(EXPIRED_NO_PRICE_CONFIG).layers();
    assert!(matches!(
        rates(&layers, "deepseek", "deepseek-v4-pro", now()),
        ConfigCallRates::ConfiguredWithoutPrice
    ));
}

#[test]
fn expired_rule_that_falls_back_reports_the_reason() {
    let layers = World::new(EXPIRED_CARD_CONFIG).layers();
    assert!(matches!(
        rates(&layers, "deepseek", "deepseek-v4-pro", now()),
        ConfigCallRates::OutOfEffect(RuleOutOfEffect::Expired)
    ));
}

#[test]
fn rule_that_starts_later_reports_not_yet_effective() {
    let config = r#"
[pricing.providers.deepseek.models."deepseek-v4-pro"]
effective_from = "2100-01-01T00:00:00Z"

[pricing.providers.deepseek.models."deepseek-v4-pro".cost]
input = 4.5
output = 13.5
"#;
    let layers = World::new(config).layers();
    assert!(matches!(
        rates(&layers, "deepseek", "deepseek-v4-pro", now()),
        ConfigCallRates::OutOfEffect(RuleOutOfEffect::NotYetEffective)
    ));
}

/// The rate the user wrote must reach the billing path.
#[test]
fn a_configured_cache_write_rate_is_reported_by_the_billing_card() {
    let config = r#"
[pricing.providers."vendor:api-key".models."sonnet-4-6".cost]
input = 1.0
output = 2.0
cache_write = 0.9
"#;
    let layers = World::without_catalog(config).layers();
    let card = priced(rates(&layers, "vendor:api-key", "sonnet-4-6", now()));
    assert_eq!(value(card.input_per_mtok), 1.0);
    assert_eq!(opt(card.cache_write_per_mtok), Some(0.9));
}

/// Only a rate that the user's own card states may replace the billing premium.
#[test]
fn a_cache_write_rate_that_only_the_fallback_layer_states_is_not_honoured() {
    let config = r#"
[pricing.providers."vendor:api-key".models."sonnet-4-6".cost]
input = 1.0
output = 2.0
"#;
    let mut layers = World::without_catalog(config).layers();
    layers.catalog = catalog_of(&[(
        "anthropic",
        "sonnet-4-6",
        model_cost(3.0, 15.0, Some(0.3), Some(3.75)),
    )]);
    let card = priced(rates(&layers, "vendor:api-key", "sonnet-4-6", now()));
    assert_eq!(
        opt(card.cache_read_per_mtok),
        Some(0.3),
        "the USD card still merges the fallback field by field"
    );
    assert_eq!(
        card.cache_write_per_mtok, None,
        "models.dev's cache-write figure must not read as a configured rate"
    );
}

/// One bad line drops the whole section, and the reason is kept for display.
#[test]
fn an_invalid_pricing_section_is_ignored_and_the_reason_is_reported() {
    let config = r#"
[pricing.fx_rates]
CNY = -7.2

[pricing.providers.deepseek.models."deepseek-v4-pro".cost]
input = 4.5
output = 13.5
"#;
    let layers = World::new(config).layers();
    assert!(
        matches!(
            rates(&layers, "deepseek", "deepseek-v4-pro", now()),
            ConfigCallRates::Absent
        ),
        "the whole section is dropped, including the providers that were fine"
    );

    let file = section_file(&toml_of(config)["pricing"]);
    let mut memo = PricingMemo::new();
    let warnings = memo.refresh(1, &file, &env(), &profiles(), &names());
    assert_eq!(warnings.len(), 1);
    assert!(warnings[0].starts_with("ignoring invalid [pricing] config (pricing.fx_rates.CNY: "));
    let (error, again) = pricing_config_error(&mut memo, 1, &file, &env(), &profiles(), &names());
    let error = error.expect("a rejected section is reported");
    assert_eq!(error.field_path, "pricing.fx_rates.CNY");
    assert!(error.message.contains("positive"), "the message says what was wrong");
    assert!(again.is_empty(), "the section is parsed once per loaded config, not once per read");
    assert!(pricing_config(&mut memo, 1, &file, &env(), &profiles(), &names()).0.is_empty());
    let generation = memo.generation;
    assert_eq!(
        pricing_generation(&mut memo, 1, &file, &env(), &profiles(), &names()).0,
        generation
    );

    // Each read is about the config that is loaded then.
    let other = section_file(&toml_of(""));
    let (error, _) = pricing_config_error(&mut memo, 2, &other, &env(), &profiles(), &names());
    assert!(error.is_none());
    let changed = pricing_generation(&mut memo, 3, &file, &env(), &profiles(), &names());
    assert_eq!(changed.0, generation + 2, "another config is another generation");
    assert_eq!(changed.1, warnings, "and is warned about once more");
    assert!(memo.error.is_some());
}

#[test]
fn a_provider_key_that_can_never_match_is_named() {
    let keys = [
        "anthropic",
        "deepseek",
        "deepsek",
        "jcode",
        "openai-compatible:deepseek",
        "openai-compatible:nope",
        "vendor:api-key",
    ];
    let config = PricingConfig {
        providers: keys
            .iter()
            .map(|key| {
                let section = ProviderPricing { currency: None, file: None, models: Vec::new() };
                (key.to_string(), section)
            })
            .collect(),
        ..PricingConfig::default()
    };
    assert_eq!(
        unmatchable_provider_keys(&config, &profiles(), &names()),
        vec!["deepsek".to_string(), "openai-compatible:nope".to_string()],
    );
    assert!(provider_key_is_known("Copilot", &profiles(), &names()));
    assert!(provider_key_is_known("moonshot ai", &profiles(), &names()));
    assert!(!provider_key_is_known(" ", &profiles(), &names()));
}

/// A cost view has to be able to name the tariff in force.
#[test]
fn selected_config_tariff_names_the_window_in_force() {
    let config = r#"
[pricing.providers.deepseek]
currency = "CNY"

[pricing.providers.deepseek.models."deepseek-v4-pro"]
default_tariff = "off_peak"

[pricing.providers.deepseek.models."deepseek-v4-pro".cost]
input = 4.5
output = 13.5

[pricing.providers.deepseek.models."deepseek-v4-pro".tariffs.off_peak]
input = 4.5
output = 13.5

[pricing.providers.deepseek.models."deepseek-v4-pro".tariffs.peak]
multiplier = 2.0

[[pricing.providers.deepseek.models."deepseek-v4-pro".schedule]]
tariff = "peak"
utc_offset_minutes = 0
weekdays = ["Mon", "Tue", "Wed", "Thu", "Fri"]
windows = [["01:00", "04:00"]]
"#;
    let layers = World::without_catalog(config).layers();
    assert_eq!(
        selected_config_tariff(&layers, "deepseek", "deepseek-v4-pro", instant(INSIDE_PEAK)),
        Some("peak".to_string()),
        "the schedule window selects the peak tariff"
    );
    assert_eq!(
        selected_config_tariff(
            &layers,
            "deepseek",
            "deepseek-v4-pro",
            instant(ONE_SECOND_BEFORE_PEAK)
        ),
        Some("off_peak".to_string()),
        "outside every window the card's default tariff applies"
    );
    assert_eq!(
        selected_config_tariff(&layers, "openai", "gpt-5.5", instant(INSIDE_PEAK)),
        None,
        "a model no hand-written card prices has no config tariff"
    );
}

// ---- the card handed downstream is tier-selected ----

const PEAK_CONFIG: &str = r#"
[pricing.providers.deepseek]
currency = "CNY"

[pricing.providers.deepseek.models."deepseek-v4-pro"]
default_tariff = "off_peak"
#EXTRA#
[pricing.providers.deepseek.models."deepseek-v4-pro".cost]
input = 4.5
output = 13.5
cache_read = 0.15

[pricing.providers.deepseek.models."deepseek-v4-pro".tariffs.off_peak]
input = 4.5
output = 13.5
cache_read = 0.15

[pricing.providers.deepseek.models."deepseek-v4-pro".tariffs.peak]
multiplier = 2.0

[[pricing.providers.deepseek.models."deepseek-v4-pro".schedule]]
tariff = "peak"
utc_offset_minutes = 0
weekdays = ["Mon", "Tue", "Wed", "Thu", "Fri"]
windows = [["01:00", "04:00"], ["06:00", "10:00"]]
"#;

fn peak_config(extra_keys: &str) -> String {
    PEAK_CONFIG.replace("#EXTRA#", extra_keys)
}

fn config_answer(layers: &PriceLayers, at: Instant) -> ConfigPrice {
    config_price(&layers.config, "deepseek", "deepseek-v4-pro", at, &names())
}

/// The card the resolver hands downstream: config lookup, field-level merge
/// with the next layer, then tariff selection on the merged base.
fn resolved(layers: &PriceLayers, at: Instant) -> Option<ResolvedCard> {
    match config_answer(layers, at) {
        ConfigPrice::Hit(entry, currency) => {
            let fallback = next_fallback(layers, "deepseek", "deepseek-v4-pro", at);
            Some(resolve_card(entry, currency, fallback, at, None))
        }
        _ => None,
    }
}

#[test]
fn resolved_card_carries_the_tier_selected_at_the_call_time() {
    let layers = World::without_catalog(&peak_config("")).layers();
    let peak = resolved(&layers, at(2026, 9, 14, 2, 0, 0)).expect("peak instant is a config hit");
    assert_eq!(peak.currency.as_str(), "CNY");
    assert_eq!(opt(peak.tier.prices.input), Some(9.0), "peak = 2x the base card");
    assert_eq!(opt(peak.tier.prices.output), Some(27.0));
    assert_eq!(opt(peak.tier.prices.cache_read), Some(0.3));

    let off_peak =
        resolved(&layers, at(2026, 9, 14, 0, 30, 0)).expect("off-peak instant is a config hit");
    assert_eq!(opt(off_peak.tier.prices.input), Some(4.5));

    let weekend = resolved(&layers, at(2026, 9, 12, 2, 0, 0)).expect("weekends are off-peak");
    assert_eq!(opt(weekend.tier.prices.input), Some(4.5));

    // The scalar entry point sees the same tier.
    let money = amount(&layers, "deepseek", "deepseek-v4-pro", at(2026, 9, 14, 2, 0, 0));
    let expected = (9.0 * 25_000.0 + 27.0 * 5_000.0) / 1_000_000.0;
    assert!(close(&money, expected, "CNY"), "{money:?}");
}

/// Expiry at the exact boundary instant, for both `on_rule_expiry` values.
#[test]
fn expiry_at_the_instant_follows_on_rule_expiry() {
    let fallback = peak_config("effective_until = \"2026-09-14T03:00:00Z\"");
    let layers = World::without_catalog(&fallback).layers();
    let before = resolved(&layers, at(2026, 9, 14, 2, 59, 59))
        .expect("one second before the bound the card is still in effect");
    assert_eq!(opt(before.tier.prices.input), Some(9.0), "and still on the peak tier");
    assert!(
        matches!(
            config_answer(&layers, at(2026, 9, 14, 3, 0, 0)),
            ConfigPrice::OutOfEffect(RuleOutOfEffect::Expired)
        ),
        "`fallback` drops the expired card so the next layer prices it"
    );

    let no_price =
        peak_config("effective_until = \"2026-09-14T03:00:00Z\"\non_rule_expiry = \"no_price\"");
    let layers = World::without_catalog(&no_price).layers();
    assert!(
        matches!(config_answer(&layers, at(2026, 9, 14, 3, 0, 0)), ConfigPrice::NoPrice),
        "`no_price` refuses to price instead of falling back"
    );
    assert!(
        matches!(config_answer(&layers, at(2026, 9, 14, 2, 59, 59)), ConfigPrice::Hit(_, _)),
        "the card still prices one second earlier"
    );
}

/// A tariff scales the effective base card, after the field-level merge.
#[test]
fn usd_partial_card_multiplier_also_scales_merged_fields() {
    let config = r#"
[pricing.providers.deepseek.models."deepseek-v4-pro".cost]
input = 1.0

[pricing.providers.deepseek.models."deepseek-v4-pro".tariffs.peak]
multiplier = 2.0

[[pricing.providers.deepseek.models."deepseek-v4-pro".schedule]]
tariff = "peak"
utc_offset_minutes = 0
weekdays = ["Mon", "Tue", "Wed", "Thu", "Fri"]
windows = [["01:00", "04:00"]]
"#;
    let mut world = World::new(config);
    world.catalog = &[("deepseek", "deepseek-v4-pro", 1.0, 8.0, None)];
    let card = resolved(&world.layers(), at(2026, 9, 14, 2, 0, 0))
        .expect("peak instant is a config hit");
    assert!(card.currency.is_usd(), "an absent `currency` key means USD");
    assert_eq!(opt(card.tier.prices.input), Some(2.0), "the written field is scaled");
    assert_eq!(
        opt(card.tier.prices.output),
        Some(16.0),
        "the merged-in field must be scaled by the same tariff"
    );
}

// ---- price sheets ----

const MIRROR_CONFIG: &str = r#"
[[pricing.sources]]
id = "mirror"
file = "/mirror.json"
"#;

const CARD_CONFIG: &str = r#"
[pricing.providers.deepseek.models.deepseek-v4-pro.cost]
input = 1.0
output = 2.0
"#;

#[test]
fn a_sheet_prices_between_the_config_card_and_models_dev() {
    let body = sheet_body("deepseek", "deepseek-v4-pro", 9.0, 18.0);
    let mut world = World::new(MIRROR_CONFIG).with_file("/mirror.json", &body);
    let sheet_only = world.cost("deepseek", "deepseek-v4-pro");
    assert!(
        close(&sheet_only, reference_cost(9.0, 18.0), "USD"),
        "the sheet must price the call, got {sheet_only:?}"
    );

    world.config = format!("{MIRROR_CONFIG}{CARD_CONFIG}");
    let with_card = world.cost("deepseek", "deepseek-v4-pro");
    assert!(
        close(&with_card, reference_cost(1.0, 2.0), "USD"),
        "a hand-written card must outrank a sheet, got {with_card:?}"
    );

    world.config = String::new();
    let catalog_only = world.cost("deepseek", "deepseek-v4-pro");
    assert!(
        close(&catalog_only, MODELS_DEV_REFERENCE, "USD"),
        "models.dev must still be the floor, got {catalog_only:?}"
    );
}

#[test]
fn scope_form_one_matches_the_exact_source_key() {
    let mut world = World::new(
        r#"
[[pricing.sources]]
id = "openrouter-only"
file = "/openrouter.json"
scope = ["openrouter"]
"#,
    )
    .with_file("/openrouter.json", &sheet_body("openrouter", "some-model", 3.0, 4.0));
    assert_eq!(
        world.sheet_of("openrouter", "some-model").as_deref(),
        Some("openrouter-only")
    );
    assert_eq!(
        world.sheet_of("deepseek", "deepseek-v4-pro"),
        None,
        "a scope that does not name the provider must not price it"
    );
}

#[test]
fn scope_form_two_matches_the_models_dev_provider_id_on_both_sides() {
    let mut world = World::new(
        r#"
[[pricing.sources]]
id = "ds"
file = "/deepseek.json"
scope = ["deepseek"]
"#,
    )
    .with_file("/deepseek.json", &sheet_body("deepseek", "deepseek-v4-pro", 9.0, 18.0));
    for source_key in ["deepseek", "openai-compatible:deepseek"] {
        assert_eq!(
            world.sheet_of(source_key, "deepseek-v4-pro").as_deref(),
            Some("ds"),
            "scope `deepseek` must cover {source_key}"
        );
    }
    assert_eq!(
        world.sheet_of("openrouter", "some-model"),
        None,
        "scope `deepseek` must not cover a different provider"
    );
}

#[test]
fn scope_form_three_matches_the_compatible_profile_id() {
    let mut world = World::new(
        r#"
[[pricing.sources]]
id = "gateway"
file = "/gateway.json"
scope = ["openai-compatible:my-gateway"]
"#,
    )
    .with_file("/gateway.json", &sheet_body("my-gateway", "gw-model", 5.0, 6.0));
    for source_key in ["openai-compatible:my-gateway", "my-gateway"] {
        assert_eq!(
            world.sheet_of(source_key, "gw-model").as_deref(),
            Some("gateway"),
            "the profile id and its prefixed form are the same route ({source_key})"
        );
    }
    assert_eq!(
        world.sheet_of("openai-compatible:other-gateway", "gw-model"),
        None,
        "a different profile must not be covered"
    );
}

#[test]
fn a_models_glob_scopes_a_sheet() {
    let mut world = World::new(
        r#"
[[pricing.sources]]
id = "v4-only"
file = "/glob.json"
scope = ["deepseek"]
models = ["deepseek-v4-*"]
"#,
    )
    .with_file(
        "/glob.json",
        r#"{"deepseek":{"models":{
            "deepseek-v4-pro":{"cost":{"input":9.0,"output":18.0}},
            "deepseek-v5-pro":{"cost":{"input":4.0,"output":8.0}}
        }}}"#,
    );
    assert_eq!(
        world.sheet_of("deepseek", "deepseek-v4-pro").as_deref(),
        Some("v4-only")
    );
    assert_eq!(
        world.sheet_of("deepseek", "deepseek-v5-pro"),
        None,
        "a model outside the glob falls through"
    );
}

#[test]
fn priority_decides_between_sheets_and_the_id_breaks_ties() {
    let losing = sheet_body("deepseek", "deepseek-v4-pro", 9.0, 18.0);
    let winning = sheet_body("deepseek", "deepseek-v4-pro", 3.0, 6.0);
    let mut world = World::new(
        r#"
[[pricing.sources]]
id = "alpha"
file = "/losing.json"
priority = 10

[[pricing.sources]]
id = "zulu"
file = "/winning.json"
priority = 5
"#,
    )
    .with_file("/losing.json", &losing)
    .with_file("/winning.json", &winning);
    let hit = |world: &mut World| {
        let layers = world.layers();
        source_card(
            &layers.config.sources,
            &layers.sheets,
            "deepseek",
            "deepseek-v4-pro",
            now(),
            &names(),
        )
        .expect("hit")
    };
    let winner = hit(&mut world);
    assert_eq!(winner.source_id, "zulu", "the lower priority number wins");
    assert_eq!(
        winner.entry.cost.input,
        Some(rate(3.0)),
        "the winner's own rates, not the loser's"
    );

    world.config = r#"
[[pricing.sources]]
id = "zulu"
file = "/losing.json"

[[pricing.sources]]
id = "alpha"
file = "/winning.json"
"#
    .to_string();
    let winner = hit(&mut world);
    assert_eq!(winner.source_id, "alpha", "ties break on id lexicographically");
    assert_eq!(winner.entry.cost.input, Some(rate(3.0)));
}

/// A sheet whose one entry has no output rate, which no parsed sheet has.
fn half_sheet(input: f64) -> Sheet {
    let cost = CostFields {
        input: Some(rate(input)),
        output: None,
        cache_read: None,
        cache_write: None,
    };
    let models = vec![("deepseek-v4-pro".to_string(), ModelPricingEntry::from_cost(cost))];
    Sheet { providers: vec![("deepseek".to_string(), ModelTable { models })] }
}

fn prime(world: &mut World, id: &str, path: &str, sheet: Sheet) {
    world.write(path, "{}", 1);
    let version = world.file(path).map(|file| file.0);
    save_catalog(&mut world.sheets, id, path, version, sheet, world.clock);
}

#[test]
fn a_lower_priority_sheet_fills_fields_the_winner_leaves_unset() {
    let mut world = World::new(
        r#"
[[pricing.sources]]
id = "winner"
file = "/winner.json"
priority = 0

[[pricing.sources]]
id = "filler"
file = "/complete.json"
priority = 10
"#,
    )
    .with_file("/complete.json", &sheet_body("deepseek", "deepseek-v4-pro", 9.0, 18.0));
    prime(&mut world, "winner", "/winner.json", half_sheet(1.0));

    let layers = world.layers();
    let hit = source_card(
        &layers.config.sources,
        &layers.sheets,
        "deepseek",
        "deepseek-v4-pro",
        now(),
        &names(),
    )
    .expect("hit");
    assert_eq!(hit.source_id, "winner");
    assert_eq!(hit.entry.cost.input, Some(rate(1.0)), "the winner's own field stands");
    assert_eq!(
        hit.entry.cost.output,
        Some(rate(18.0)),
        "the field the winner leaves unset comes from the next sheet"
    );
}

#[test]
fn a_missing_local_sheet_falls_through_to_models_dev() {
    let mut world =
        World::new("[[pricing.sources]]\nid = \"missing\"\nfile = \"/not-there.json\"\n");
    let priced = world.cost("deepseek", "deepseek-v4-pro");
    assert!(close(&priced, MODELS_DEV_REFERENCE, "USD"), "{priced:?}");
}

#[test]
fn a_file_url_value_is_just_a_path_that_does_not_exist() {
    let mut world = World::new(
        "[[pricing.sources]]\nid = \"scheme\"\nfile = \"file:///nowhere/prices.json\"\n",
    );
    assert_eq!(world.sheet_of("deepseek", "deepseek-v4-pro"), None);
    let priced = world.cost("deepseek", "deepseek-v4-pro");
    assert!(close(&priced, MODELS_DEV_REFERENCE, "USD"), "{priced:?}");
}

#[test]
fn a_malformed_sheet_falls_through_to_models_dev() {
    let mut world = World::new("[[pricing.sources]]\nid = \"broken\"\nfile = \"/broken.json\"\n")
        .with_file("/broken.json", "{ this is not json ");
    let priced = world.cost("deepseek", "deepseek-v4-pro");
    assert!(close(&priced, MODELS_DEV_REFERENCE, "USD"), "{priced:?}");
    assert_eq!(world.sheet_of("deepseek", "deepseek-v4-pro"), None);
}

fn sheet_notice(layers: &PriceLayers) -> Option<String> {
    sheet_rule_out_of_effect(
        &layers.config.sources,
        &layers.sheets,
        "deepseek",
        "deepseek-v4-pro",
        now(),
        &names(),
    )
    .map(|notice| notice.label())
}

#[test]
fn a_sheet_whose_rule_is_out_of_effect_is_skipped() {
    let mut world = World::new("[[pricing.sources]]\nid = \"expired\"\nfile = \"/expired.json\"\n")
        .with_file(
            "/expired.json",
            r#"{"deepseek":{"models":{"deepseek-v4-pro":{
            "cost":{"input":9.0,"output":18.0},
            "effective_until":"2020-01-01T00:00:00Z"
        }}}}"#,
        );
    assert_eq!(world.sheet_of("deepseek", "deepseek-v4-pro"), None);
    let priced = world.cost("deepseek", "deepseek-v4-pro");
    assert!(close(&priced, MODELS_DEV_REFERENCE, "USD"), "{priced:?}");
    assert_eq!(
        sheet_notice(&world.layers()).expect("the out-of-effect sheet is reported"),
        "rule expired (pricing source `expired`)",
        "the marker names the sheet whose rule stopped applying"
    );
}

#[test]
fn an_in_effect_sheet_rule_is_not_reported_out_of_effect() {
    let mut world = World::new("[[pricing.sources]]\nid = \"live\"\nfile = \"/live.json\"\n")
        .with_file("/live.json", &sheet_body("deepseek", "deepseek-v4-pro", 9.0, 18.0));
    assert_eq!(
        world.sheet_of("deepseek", "deepseek-v4-pro").as_deref(),
        Some("live")
    );
    assert_eq!(
        sheet_notice(&world.layers()),
        None,
        "an in-effect sheet is not out of effect"
    );
}

#[test]
fn a_foreign_currency_sheet_prices_in_its_own_currency_never_in_another() {
    let mut world = World::new(
        "[[pricing.sources]]\nid = \"cny\"\nfile = \"/cny.json\"\ncurrency = \"CNY\"\n",
    )
    .with_file("/cny.json", &sheet_body("deepseek", "deepseek-v4-pro", 12.0, 24.0));
    let cny = world.cost("deepseek", "deepseek-v4-pro");
    assert!(
        close(&cny, reference_cost(12.0, 24.0), "CNY"),
        "the numbers stay the sheet's, got {cny:?}"
    );

    world.config = String::new();
    let catalog = world.cost("deepseek", "deepseek-v4-pro");
    assert_eq!(catalog.expect("priced").1, "USD", "models.dev values are USD");
}

/// A sheet that cannot price a call on its own must not have models.dev's USD
/// numbers relabelled, and must not block models.dev either.
#[test]
fn an_incomplete_foreign_currency_sheet_does_not_relabel_models_dev() {
    let mut world = World::new(
        "[[pricing.sources]]\nid = \"incomplete\"\nfile = \"/incomplete.json\"\ncurrency = \"CNY\"\n",
    );
    prime(&mut world, "incomplete", "/incomplete.json", half_sheet(1.0));
    let priced = world.cost("deepseek", "deepseek-v4-pro");
    assert!(
        close(&priced, MODELS_DEV_REFERENCE, "USD"),
        "a half card in CNY must not relabel USD numbers, got {priced:?}"
    );
}

fn derived(layers: &PriceLayers, at: Instant) -> RouteEstimate {
    metered(derived_pricing_for_source_at_size(
        layers,
        "deepseek",
        "deepseek-v4-pro",
        at,
        None,
        nothing_given(),
    ))
}

#[test]
fn the_derived_billing_layer_labels_and_uses_the_sheet() {
    let body = sheet_body("deepseek", "deepseek-v4-pro", 9.0, 18.0);
    let mut world = World::new(MIRROR_CONFIG).with_file("/mirror.json", &body);
    let estimate = derived(&world.layers(), now());
    assert_eq!(estimate.source, RouteCostSource::ExtraPriceSource);
    assert_eq!(micros(estimate.input), 9_000_000);
    assert_eq!(micros(estimate.output), 18_000_000);
    assert!(
        estimate.note.contains("mirror"),
        "the sheet that priced the call is named: {estimate:?}"
    );

    world.config = String::new();
    let catalog = derived(&world.layers(), now());
    assert_eq!(
        catalog.source,
        RouteCostSource::ModelsDevCatalog,
        "with no sheet the derived chain is unchanged"
    );
}

#[test]
fn the_config_card_still_outranks_a_sheet_in_the_route_catalog() {
    let body = sheet_body("deepseek", "deepseek-v4-pro", 9.0, 18.0);
    let mut world =
        World::new(&format!("{MIRROR_CONFIG}{CARD_CONFIG}")).with_file("/mirror.json", &body);
    let estimate = metered(metered_pricing_for_source_at(
        &world.layers(),
        "deepseek",
        "deepseek-v4-pro",
        now(),
        nothing_given(),
    ));
    assert_eq!(
        estimate.source,
        RouteCostSource::ConfigPriceSheet,
        "the hand-written card is still the authority"
    );
    assert_eq!(micros(estimate.input), 1_000_000);
}

#[test]
fn a_currency_stated_by_a_sheet_is_normalized_like_any_other_code() {
    let mut world = World::new(
        "[[pricing.sources]]\nid = \"cny\"\nfile = \"/cny.json\"\ncurrency = \"cny\"\n",
    )
    .with_file("/cny.json", &sheet_body("deepseek", "deepseek-v4-pro", 12.0, 24.0));
    let layers = world.layers();
    let hit = source_card(
        &layers.config.sources,
        &layers.sheets,
        "deepseek",
        "deepseek-v4-pro",
        now(),
        &names(),
    )
    .expect("hit");
    assert_eq!(hit.currency, Currency::new("CNY"));
}

#[test]
fn an_invalid_source_is_reported_to_the_display_and_ignored() {
    let config = "[[pricing.sources]]\nid = \"bad\"\nfile = \"\"\n";
    let mut memo = PricingMemo::new();
    let (error, _) = pricing_config_error(
        &mut memo,
        1,
        &section_file(&toml_of(config)["pricing"]),
        &env(),
        &profiles(),
        &names(),
    );
    let error = error.expect("reported");
    assert_eq!(error.field_path, "pricing.sources[0].file");

    let priced = World::new(config).cost("deepseek", "deepseek-v4-pro");
    assert!(close(&priced, MODELS_DEV_REFERENCE, "USD"), "{priced:?}");
}

const PEAK_SHEET: &str = r#"{"deepseek":{"models":{"deepseek-v4-pro":{
            "cost":{"input":1.0,"output":2.0},
            "tariffs":{"peak":{"multiplier":2.0}},
            "schedule":[{
                "tariff":"peak",
                "utc_offset_minutes":0,
                "weekdays":["Mon","Tue","Wed","Thu","Fri"],
                "windows":[["01:00","04:00"]]
            }]
        }}}}"#;

/// 2030-06-22T02:00:00Z, a Saturday.
const SATURDAY: i64 = 1_908_324_000;
/// 2030-06-24T02:00:00Z, a Monday, inside the peak window.
const MONDAY_PEAK: i64 = 1_908_496_800;

#[test]
fn a_sheet_can_state_peak_hours_like_a_hand_written_card() {
    let mut world = World::new("[[pricing.sources]]\nid = \"peak\"\nfile = \"/peak.json\"\n")
        .with_file("/peak.json", PEAK_SHEET);
    let off_peak = world.cost_at("deepseek", "deepseek-v4-pro", instant(SATURDAY));
    let peak = world.cost_at("deepseek", "deepseek-v4-pro", instant(MONDAY_PEAK));
    assert!(
        close(&off_peak, reference_cost(1.0, 2.0), "USD"),
        "off peak uses the sheet's base cost, got {off_peak:?}"
    );
    assert!(
        close(&peak, reference_cost(2.0, 4.0), "USD"),
        "the sheet's peak tariff doubles it, got {peak:?}"
    );
}

#[test]
fn the_derived_billing_layer_reads_a_sheet_schedule_at_the_call_instant() {
    let layers = World::new("[[pricing.sources]]\nid = \"peak\"\nfile = \"/peak.json\"\n")
        .with_file("/peak.json", PEAK_SHEET)
        .layers();
    assert_eq!(
        micros(derived(&layers, instant(SATURDAY)).input),
        1_000_000,
        "off peak prices the sheet's base rate"
    );
    assert_eq!(
        micros(derived(&layers, instant(MONDAY_PEAK)).input),
        2_000_000,
        "the peak window doubles the sheet's input rate"
    );
}

#[test]
fn a_sheets_long_context_tier_is_reported_and_billed() {
    let mut world = World::new("[[pricing.sources]]\nid = \"tiers\"\nfile = \"/tiers.json\"\n")
        .with_file(
            "/tiers.json",
            r#"{"deepseek":{"models":{"deepseek-v4-pro":{
            "cost":{"input":1.0,"output":2.0},
            "context_tiers":[{"min_input_tokens":200000,"multiplier":2.0}]
        }}}}"#,
        );
    let layers = world.layers();
    let tier = |layers: &PriceLayers, tokens: u64| {
        derived_price_identity(layers, "deepseek", "deepseek-v4-pro", now(), Some(tokens))
            .context_tier
    };
    assert_eq!(tier(&layers, 200_000), None, "exactly the threshold is still the base tier");
    assert_eq!(tier(&layers, 200_001), Some(200_000));

    let card = |tokens: u64| {
        effective_entry_at_size(&layers, "deepseek", "deepseek-v4-pro", now(), Some(tokens))
            .expect("priced")
            .prices
    };
    let base = card(100_000);
    let long = card(300_000);
    assert_eq!(opt(base.input), Some(1.0));
    assert_eq!(opt(base.output), Some(2.0));
    assert_eq!(opt(long.input), Some(2.0), "the sheet's tier doubles it");
    assert_eq!(opt(long.output), Some(4.0));

    world.config = String::new();
    assert_eq!(tier(&world.layers(), 300_000), None);
}

/// A source that keeps failing must not be read again on every price lookup.
#[test]
fn a_failing_source_is_not_retried_on_every_lookup() {
    let mut world =
        World::new("[[pricing.sources]]\nid = \"missing\"\nfile = \"/not-there.json\"\n");
    assert_eq!(world.sheet_of("deepseek", "deepseek-v4-pro"), None);
    assert!(
        world.sheets.is_in_backoff("missing", world.clock),
        "the failure buys a backoff window"
    );

    let body = sheet_body("deepseek", "deepseek-v4-pro", 9.0, 18.0);
    world.write("/not-there.json", &body, 1);
    assert_eq!(
        world.sheet_of("deepseek", "deepseek-v4-pro"),
        None,
        "a freshly failed source is left alone for the backoff window"
    );
    let priced = world.cost("deepseek", "deepseek-v4-pro");
    assert!(close(&priced, MODELS_DEV_REFERENCE, "USD"), "{priced:?}");

    // Once the window is over the fixed sheet is picked up.
    world.clock += FAILURE_BACKOFF_SECS;
    assert_eq!(
        world.sheet_of("deepseek", "deepseek-v4-pro").as_deref(),
        Some("missing")
    );
    assert!(!world.sheets.is_in_backoff("missing", world.clock));
}

/// Two provider keys in one sheet can both match the caller's identity; the
/// choice is the lexicographically smallest key, whatever their order.
#[test]
fn two_matching_sheet_provider_keys_always_pick_the_same_section() {
    let first = r#""vendor":{"models":{"fable-5":{"cost":{"input":9.0,"output":9.0}}}}"#;
    let second = r#""anthropic-api":{"models":{"fable-5":{"cost":{"input":1.0,"output":2.0}}}}"#;
    for body in [format!("{{{first},{second}}}"), format!("{{{second},{first}}}")] {
        let layers = World::new(MIRROR_CONFIG).with_file("/mirror.json", &body).layers();
        let hit = source_card(
            &layers.config.sources,
            &layers.sheets,
            "vendor:api-key",
            "fable-5",
            now(),
            &names(),
        )
        .expect("a sheet prices the pair");
        assert_eq!(
            hit.entry.cost.input,
            Some(rate(1.0)),
            "the lexicographically smallest matching key (`anthropic-api`) must win"
        );
    }
}

#[test]
fn a_partial_usd_config_card_is_filled_from_a_sheet_before_models_dev() {
    let config = format!(
        "{MIRROR_CONFIG}\n[pricing.providers.deepseek.models.\"deepseek-v4-pro\".cost]\ninput = 1.5\n"
    );
    let layers = World::new(&config)
        .with_file("/mirror.json", &sheet_body("deepseek", "deepseek-v4-pro", 3.0, 7.0))
        .layers();
    let card = effective_entry(&layers, "deepseek", "deepseek-v4-pro", now())
        .expect("the card prices the model");
    assert_eq!(opt(card.prices.input), Some(1.5), "the written field still wins");
    assert_eq!(
        opt(card.prices.output),
        Some(7.0),
        "the sheet fills the blank before models.dev's 1.98"
    );
    assert!(card.currency.is_usd());
}

#[test]
fn a_sheet_card_fills_from_models_dev_and_not_another_sheet() {
    let layers = World::new(MIRROR_CONFIG)
        .with_file("/mirror.json", &sheet_body("deepseek", "deepseek-v4-pro", 3.0, 7.0))
        .layers();
    let sheet = source_card_at_size(&layers, "deepseek", "deepseek-v4-pro", now(), None)
        .expect("the sheet prices the model");
    assert_eq!(sheet.source_id, "mirror");
    assert_eq!(opt(sheet.card.tier.prices.input), Some(3.0));
    assert_eq!(opt(sheet.card.tier.prices.output), Some(7.0));
    assert_eq!(opt(sheet.card.tier.prices.cache_read), Some(0.022), "models.dev fills the rest");
}

/// Two different sources' saves must not lose each other.
#[test]
fn a_save_bases_on_memory_and_never_drops_the_other_source() {
    let mut registry: FileRegistry<Sheet> = FileRegistry::new();
    assert!(save_catalog(&mut registry, "a", "/sheet.json", None, half_sheet(1.0), 1));
    assert!(save_catalog(&mut registry, "b", "/sheet.json", None, half_sheet(2.0), 2));
    let ids: Vec<&str> = registry.copies.iter().map(|copy| copy.0.as_str()).collect();
    assert_eq!(ids, vec!["a", "b"], "the view must keep both sources");
    assert!(
        !save_catalog(&mut registry, "a", "/sheet.json", None, half_sheet(1.0), 3),
        "the same rates again change nothing"
    );
    assert!(save_catalog(&mut registry, "a", "/sheet.json", None, half_sheet(3.0), 4));
}

#[test]
fn a_copy_is_compared_by_the_values_of_its_rates() {
    assert!(rate(0.0).same(&rate(-0.0)));
    assert!(rate(1.5).same(&rate(1.5)));
    assert!(!rate(1.5).same(&rate(-1.5)));
    assert!(!rate(f64::NAN).same(&rate(f64::NAN)));
    assert!(rate(f64::INFINITY).same(&rate(f64::INFINITY)));

    let mut registry: FileRegistry<Sheet> = FileRegistry::new();
    assert!(save_catalog(&mut registry, "a", "/sheet.json", None, half_sheet(0.0), 1));
    assert!(!save_catalog(&mut registry, "a", "/sheet.json", None, half_sheet(-0.0), 2));
    assert!(save_catalog(&mut registry, "a", "/sheet.json", None, half_sheet(1.0), 3));
}

#[test]
fn the_order_of_models_is_no_change() {
    let table = |ids: [&str; 3]| ModelTable {
        models: ids
            .iter()
            .map(|id| {
                let cost = model_cost(id.len() as f64, 1.0, None, None);
                (id.to_string(), ModelPricingEntry::from_model_cost(cost))
            })
            .collect(),
    };
    assert!(table(["a", "bb", "ccc"]).same(&table(["ccc", "a", "bb"])));
    assert!(!table(["a", "bb", "ccc"]).same(&table(["a", "bb", "dddd"])));
    assert!(!table(["a", "bb", "ccc"]).same(&ModelTable { models: Vec::new() }));
}

#[test]
fn an_oversized_local_sheet_is_refused_before_it_is_buffered() {
    let error = check_file("/huge.json", "sheet", true, MAX_FILE_BYTES + 1)
        .expect_err("oversized sheet is refused");
    assert!(error.contains("larger than"), "the size precheck must fire, got: {error}");
    assert!(check_file("/huge.json", "sheet", true, MAX_FILE_BYTES).is_ok());

    let body = " ".repeat(MAX_FILE_BYTES as usize + 1);
    let error = parse_sheet(&body).expect_err("oversized sheet is refused");
    assert!(error.contains("larger than"), "{error}");
}

#[test]
fn a_non_regular_sheet_path_is_refused_without_being_opened() {
    let error = check_file("/sheet-dir", "sheet", false, 0).expect_err("a directory is not a sheet");
    assert!(error.contains("not a regular file"), "{error}");
}

#[test]
fn an_id_less_local_source_prices_the_call_under_a_stable_derived_id() {
    let mut world = World::new("[[pricing.sources]]\nfile = \"/prices.json\"\n")
        .with_file("/prices.json", &sheet_body("deepseek", "deepseek-v4-pro", 9.0, 18.0));
    let priced = world.cost("deepseek", "deepseek-v4-pro");
    assert!(
        close(&priced, reference_cost(9.0, 18.0), "USD"),
        "an id-less source must still price the call, got {priced:?}"
    );
    assert_eq!(
        world.sheet_of("deepseek", "deepseek-v4-pro").as_deref(),
        Some("prices")
    );
    assert_eq!(world.sheets.copies.len(), 1, "exactly one cache key");
    assert_eq!(world.sheets.copies[0].0, "prices");
}

#[test]
fn a_bare_name_source_is_read_from_the_jcode_cache_dir() {
    let mut world = World::new("[[pricing.sources]]\nfile = \"deepseek.json\"\n").with_file(
        &format!("{CACHE_DIR}/deepseek.json"),
        &sheet_body("deepseek", "deepseek-v4-pro", 9.0, 18.0),
    );
    let priced = world.cost("deepseek", "deepseek-v4-pro");
    assert!(
        close(&priced, reference_cost(9.0, 18.0), "USD"),
        "a bare name must resolve under the cache dir, got {priced:?}"
    );
    assert_eq!(
        world.sheet_of("deepseek", "deepseek-v4-pro").as_deref(),
        Some("deepseek")
    );
}

#[test]
fn an_edited_local_sheet_is_picked_up_at_the_next_lookup() {
    let mut world = World::new("[[pricing.sources]]\nfile = \"/prices.json\"\n")
        .with_file("/prices.json", &sheet_body("deepseek", "deepseek-v4-pro", 9.0, 18.0));
    let before = world.cost("deepseek", "deepseek-v4-pro");
    assert!(close(&before, reference_cost(9.0, 18.0), "USD"), "{before:?}");

    let edited = sheet_body("deepseek", "deepseek-v4-pro", 3.0, 6.0);
    world.write("/prices.json", &edited, 1_900_000_000);
    let after = world.cost("deepseek", "deepseek-v4-pro");
    assert!(
        close(&after, reference_cost(3.0, 6.0), "USD"),
        "an edited local sheet must be re-read at the next lookup, got {after:?}"
    );
}

#[test]
fn an_unchanged_local_sheet_is_not_reread_on_every_lookup() {
    let mut world = World::new("[[pricing.sources]]\nfile = \"/prices.json\"\n")
        .with_file("/prices.json", &sheet_body("deepseek", "deepseek-v4-pro", 9.0, 18.0));
    for _ in 0..9 {
        assert_eq!(
            world.sheet_of("deepseek", "deepseek-v4-pro").as_deref(),
            Some("prices")
        );
    }
    assert_eq!(world.reads, 1, "an unchanged local sheet is not read again");
    assert!(world.sheets.copies[0].1.fingerprint.is_some());
}

#[test]
fn a_missing_local_sheet_costs_one_attempt_per_backoff_not_one_per_lookup() {
    let mut world = World::new("[[pricing.sources]]\nfile = \"/not-there.json\"\n");
    for _ in 0..9 {
        assert_eq!(world.sheet_of("deepseek", "deepseek-v4-pro"), None);
    }
    assert_eq!(world.reads, 1, "the backoff window prevents re-reading a missing file");
    assert!(world.sheets.is_in_backoff("not-there", world.clock));

    world.clock += FAILURE_BACKOFF_SECS;
    assert_eq!(world.sheet_of("deepseek", "deepseek-v4-pro"), None);
    assert_eq!(world.reads, 2);
}

// ---- vendor files ----

const VENDOR_FILE_CONFIG: &str = "[pricing.providers.deepseek]\nfile = \"/prices.json\"\n";

#[test]
fn a_card_outranks_a_file_which_outranks_models_dev() {
    let mut world = World::new(VENDOR_FILE_CONFIG)
        .with_file("/prices.json", &vendor_body("deepseek-v4-pro", 5.0, 10.0));
    let file_price = world.cost("deepseek", "deepseek-v4-pro");
    assert!(
        close(&file_price, reference_cost(5.0, 10.0), "USD"),
        "the file's own rates must win over models.dev, got {file_price:?}"
    );

    world.config = format!(
        "{VENDOR_FILE_CONFIG}\n[pricing.providers.deepseek.models.\"deepseek-v4-pro\".cost]\n\
         input = 7.0\noutput = 14.0\n"
    );
    let card_price = world.cost("deepseek", "deepseek-v4-pro");
    assert!(
        close(&card_price, reference_cost(7.0, 14.0), "USD"),
        "the inline card must outrank the file, got {card_price:?}"
    );

    world.config = String::new();
    let chain_price = world.cost("deepseek", "deepseek-v4-pro");
    assert!(close(&chain_price, reference_cost(0.66, 1.98), "USD"), "{chain_price:?}");
}

/// A DeepSeek file prices a `deepseek-flash` call even on an OpenRouter route.
#[test]
fn a_file_rule_applies_by_model_id_regardless_of_route() {
    let mut world = World::new(&format!("{VENDOR_FILE_CONFIG}currency = \"CNY\"\n"))
        .with_file("/prices.json", &vendor_body("deepseek-flash", 1.0, 4.0));
    let price = world.cost("openrouter", "deepseek-flash");
    assert!(
        close(&price, reference_cost(1.0, 4.0), "CNY"),
        "the OpenRouter route must reach the DeepSeek file, got {price:?}"
    );
    assert_eq!(
        world.vendor_of("openrouter", "deepseek-flash").as_deref(),
        Some("deepseek")
    );
}

#[test]
fn two_vendors_naming_one_model_resolve_in_lexicographic_order() {
    let mut world = World::new(
        "[pricing.providers.zeta]\nfile = \"/zeta.json\"\n\n\
         [pricing.providers.alpha]\nfile = \"/alpha.json\"\n",
    )
    .with_file("/alpha.json", &vendor_body("deepseek-v4-pro", 3.0, 6.0))
    .with_file("/zeta.json", &vendor_body("deepseek-v4-pro", 9.0, 18.0));
    assert_eq!(
        world.vendor_of("deepseek", "deepseek-v4-pro").as_deref(),
        Some("alpha"),
        "the lexicographically first vendor wins"
    );
    let price = world.cost("deepseek", "deepseek-v4-pro");
    assert!(
        close(&price, reference_cost(3.0, 6.0), "USD"),
        "no merging across vendors, got {price:?}"
    );
}

#[test]
fn the_legacy_vendor_keyed_file_is_rejected_with_a_clear_message() {
    let message = parse_vendor_file(
        r#"{"deepseek":{"models":{"deepseek-v4-pro":{"cost":{"input":1.0,"output":2.0}}}}}"#,
        "/legacy.json",
    )
    .expect_err("the old vendor-keyed shape is rejected");
    assert!(
        message.contains("deepseek") && message.contains("models"),
        "the error must name the offending outer key: {message}"
    );
    assert!(
        message.contains("no outer provider key"),
        "the error must say what to do: {message}"
    );
}

#[test]
fn a_file_without_a_top_level_models_map_is_rejected() {
    let message =
        parse_vendor_file("{}", "/empty.json").expect_err("a file without `models` is invalid");
    assert!(
        message.contains("models"),
        "the error must name the missing field: {message}"
    );
    assert!(parse_vendor_file(r#"{"models":{}}"#, "/models-empty.json")
        .expect("an empty models map is valid")
        .models
        .is_empty());
}

#[test]
fn a_file_rule_is_validated_like_a_card() {
    let message = parse_vendor_file(
        r#"{"models":{"deepseek-v4-pro":{"cost":{"input":-5.0,"output":1.0}}}}"#,
        "/bad.json",
    )
    .expect_err("a negative rate is rejected exactly as in a card");
    assert!(message.contains("input"), "the error must name the field: {message}");
}

#[test]
fn a_missing_vendor_file_falls_through_to_models_dev() {
    let price = World::new(VENDOR_FILE_CONFIG).cost("deepseek", "deepseek-v4-pro");
    assert!(
        close(&price, reference_cost(0.66, 1.98), "USD"),
        "a missing file must fall through, got {price:?}"
    );
}

#[test]
fn a_malformed_vendor_file_falls_through_to_models_dev() {
    let price = World::new(VENDOR_FILE_CONFIG)
        .with_file("/prices.json", "{ this is not json")
        .cost("deepseek", "deepseek-v4-pro");
    assert!(
        close(&price, reference_cost(0.66, 1.98), "USD"),
        "a malformed file must fall through, got {price:?}"
    );
}

#[test]
fn an_oversized_vendor_file_is_refused_before_it_is_buffered() {
    let error = check_file("/huge.json", "file", true, MAX_FILE_BYTES + 1)
        .expect_err("an oversized file is refused");
    assert!(error.contains("larger than"), "the size error must be explicit: {error}");
    let body = " ".repeat(MAX_FILE_BYTES as usize + 1);
    let error = parse_vendor_file(&body, "/huge.json").expect_err("an oversized file is refused");
    assert!(error.contains("larger than"), "{error}");
}

#[test]
fn a_non_regular_vendor_file_path_is_refused_without_being_opened() {
    let error =
        check_file("/a-directory", "file", false, 0).expect_err("a directory is not a price file");
    assert!(error.contains("not a regular file"), "the error must say why: {error}");
}

#[test]
fn a_bare_name_vendor_file_is_read_from_the_jcode_cache_dir() {
    let price = World::new("[pricing.providers.deepseek]\nfile = \"deepseek.json\"\n")
        .with_file(
            &format!("{CACHE_DIR}/deepseek.json"),
            &vendor_body("deepseek-v4-pro", 2.0, 4.0),
        )
        .cost("deepseek", "deepseek-v4-pro");
    assert!(
        close(&price, reference_cost(2.0, 4.0), "USD"),
        "a bare name must resolve under the cache dir, got {price:?}"
    );
}

#[test]
fn an_edited_vendor_file_is_picked_up_at_the_next_lookup() {
    let mut world = World::new(VENDOR_FILE_CONFIG)
        .with_file("/prices.json", &vendor_body("deepseek-v4-pro", 1.0, 2.0));
    let before = world.cost("deepseek", "deepseek-v4-pro");
    assert!(close(&before, reference_cost(1.0, 2.0), "USD"), "{before:?}");
    let edited = vendor_body("deepseek-v4-pro", 3.0, 6.0);
    world.write("/prices.json", &edited, 1_900_000_000);
    let after = world.cost("deepseek", "deepseek-v4-pro");
    assert!(
        close(&after, reference_cost(3.0, 6.0), "USD"),
        "an edited local file must be re-read at the next lookup, got {after:?}"
    );
}

#[test]
fn an_unchanged_vendor_file_is_not_reread_on_every_lookup() {
    let mut world = World::new(VENDOR_FILE_CONFIG)
        .with_file("/prices.json", &vendor_body("deepseek-v4-pro", 9.0, 18.0));
    for _ in 0..9 {
        assert_eq!(
            world.vendor_of("deepseek", "deepseek-v4-pro").as_deref(),
            Some("deepseek")
        );
    }
    assert_eq!(world.reads, 1, "an unchanged local file is not read again");
    assert!(world.vendors.copies[0].1.fingerprint.is_some());
}

#[test]
fn a_missing_vendor_file_costs_one_attempt_per_backoff_not_one_per_lookup() {
    let mut world = World::new(VENDOR_FILE_CONFIG);
    for _ in 0..9 {
        assert_eq!(world.vendor_of("deepseek", "deepseek-v4-pro"), None);
    }
    assert_eq!(world.reads, 1, "the backoff window prevents re-reading a missing file");
    assert!(world.vendors.is_in_backoff("deepseek", world.clock));
    world.clock += FAILURE_BACKOFF_SECS;
    assert_eq!(world.vendor_of("deepseek", "deepseek-v4-pro"), None);
    assert_eq!(world.reads, 2);
}

#[test]
fn a_file_rule_that_is_out_of_effect_is_skipped_and_labelled_with_the_vendor() {
    let mut world = World::new(VENDOR_FILE_CONFIG).with_file(
        "/prices.json",
        r#"{"models":{"deepseek-v4-pro":{"cost":{"input":9.0,"output":18.0},"effective_until":"2020-01-01T00:00:00Z"}}}"#,
    );
    assert_eq!(
        world.vendor_of("deepseek", "deepseek-v4-pro"),
        None,
        "an out-of-effect file must not price the call"
    );
    let label = vendor_file_rule_out_of_effect(&world.layers(), "deepseek-v4-pro", now())
        .expect("the out-of-effect file rule is reported")
        .label();
    assert!(
        label.contains("expired") && label.contains("deepseek"),
        "the marker must name the vendor: {label}"
    );
    let price = world.cost("deepseek", "deepseek-v4-pro");
    assert!(close(&price, reference_cost(0.66, 1.98), "USD"), "{price:?}");
}

#[test]
fn a_foreign_currency_file_prices_in_its_own_currency_never_in_another() {
    let price = World::new(&format!("{VENDOR_FILE_CONFIG}currency = \"CNY\"\n"))
        .with_file("/prices.json", &vendor_body("deepseek-v4-pro", 4.5, 13.5))
        .cost("deepseek", "deepseek-v4-pro");
    assert!(close(&price, reference_cost(4.5, 13.5), "CNY"), "{price:?}");
}

#[test]
fn an_incomplete_foreign_currency_file_does_not_relabel_models_dev() {
    let mut world = World::new(&format!("{VENDOR_FILE_CONFIG}currency = \"CNY\"\n"))
        .with_file("/prices.json", r#"{"models":{"deepseek-v4-pro":{"cost":{"input":4.5}}}}"#);
    assert_eq!(
        world.vendor_of("deepseek", "deepseek-v4-pro"),
        None,
        "an incomplete foreign-currency file must not price the call"
    );
    let price = world.cost("deepseek", "deepseek-v4-pro");
    assert!(
        close(&price, reference_cost(0.66, 1.98), "USD"),
        "a USD fallback must not be relabelled CNY, got {price:?}"
    );
}

const PEAK_FILE: &str = r#"{"models":{"deepseek-v4-pro":{
           "cost":{"input":1.0,"output":2.0},
           "tariffs":{"peak":{"multiplier":10.0}},
           "schedule":[{"tariff":"peak","utc_offset_minutes":0,"weekdays":["Mon","Tue","Wed","Thu","Fri"],"windows":[["01:00","04:00"]]}]
        }}}"#;

#[test]
fn a_vendor_file_can_state_peak_hours_like_a_hand_written_card() {
    let mut world = World::new(VENDOR_FILE_CONFIG).with_file("/prices.json", PEAK_FILE);
    let off_peak = world.cost_at("deepseek", "deepseek-v4-pro", instant(SATURDAY));
    let peak = world.cost_at("deepseek", "deepseek-v4-pro", instant(MONDAY_PEAK));
    assert!(close(&off_peak, reference_cost(1.0, 2.0), "USD"), "{off_peak:?}");
    assert!(
        close(&peak, reference_cost(10.0, 20.0), "USD"),
        "the file's schedule must select the peak tariff, got {peak:?}"
    );
}

#[test]
fn the_derived_price_identity_carries_the_vendor_file_and_tariff() {
    let layers = World::new(VENDOR_FILE_CONFIG).with_file("/prices.json", PEAK_FILE).layers();
    let identity = |at: Instant| {
        derived_price_identity(&layers, "deepseek", "deepseek-v4-pro", at, None).vendor_file
    };
    let off_peak = identity(instant(SATURDAY));
    let peak = identity(instant(MONDAY_PEAK));
    assert_ne!(
        off_peak, peak,
        "the tariff in force must be part of the derived price identity"
    );
    assert!(
        peak.as_deref().is_some_and(|id| id.starts_with("deepseek")),
        "the identity must name the vendor: {peak:?}"
    );
}

#[test]
fn a_vendors_long_context_tier_is_billed_for_a_large_call() {
    let layers = World::new(VENDOR_FILE_CONFIG)
        .with_file(
            "/prices.json",
            r#"{"models":{"deepseek-v4-pro":{
           "cost":{"input":1.0,"output":2.0},
           "context_tiers":[{"min_input_tokens":200000,"multiplier":10.0}]
        }}}"#,
        )
        .layers();
    let input = |tokens: u64| {
        effective_entry_at_size(&layers, "deepseek", "deepseek-v4-pro", now(), Some(tokens))
            .expect("priced")
            .prices
            .input
    };
    assert_eq!(opt(input(100_000)), Some(1.0));
    assert_eq!(
        opt(input(300_000)),
        Some(10.0),
        "a call above the threshold must use the higher tier"
    );
    assert_eq!(
        derived_price_identity(&layers, "deepseek", "deepseek-v4-pro", now(), Some(300_000))
            .context_tier,
        Some(200_000),
    );
}

#[test]
fn the_vendor_file_cache_is_keyed_by_vendor() {
    let mut world = World::new(VENDOR_FILE_CONFIG)
        .with_file("/prices.json", &vendor_body("deepseek-v4-pro", 1.0, 2.0));
    assert_eq!(
        world.vendor_of("deepseek", "deepseek-v4-pro").as_deref(),
        Some("deepseek")
    );
    let cost = model_cost(4.0, 8.0, None, None);
    let models = vec![(
        "deepseek-v4-pro".to_string(),
        ModelPricingEntry::from_model_cost(cost),
    )];
    assert!(save_vendor_catalog(
        &mut world.vendors,
        "primed",
        "/nope.json",
        None,
        ModelTable { models },
        world.clock,
    ));
    assert_eq!(
        world.vendor_of("deepseek", "deepseek-v4-pro").as_deref(),
        Some("deepseek")
    );
    let ids: Vec<&str> = world.vendors.copies.iter().map(|copy| copy.0.as_str()).collect();
    assert_eq!(ids, vec!["deepseek", "primed"]);
}

#[test]
fn a_vendor_file_prices_from_its_own_rates_until_the_config_points_elsewhere() {
    let mut world = World::new("[pricing.providers.deepseek]\nfile = \"/first.json\"\n")
        .with_file("/first.json", &vendor_body("deepseek-v4-pro", 1.0, 2.0))
        .with_file("/second.json", &vendor_body("deepseek-v4-pro", 3.0, 6.0));
    let one = world.cost("deepseek", "deepseek-v4-pro");
    assert!(close(&one, reference_cost(1.0, 2.0), "USD"), "{one:?}");
    world.config = "[pricing.providers.deepseek]\nfile = \"/second.json\"\n".to_string();
    let two = world.cost("deepseek", "deepseek-v4-pro");
    assert!(
        close(&two, reference_cost(3.0, 6.0), "USD"),
        "a path change must invalidate the cached copy, got {two:?}"
    );
}

// ---- routes ----

fn plan_estimates() -> PlanEstimates<&'static str> {
    PlanEstimates {
        anthropic_plan: "anthropic plan",
        openai_plan: "openai plan",
        copilot_plan: "copilot plan",
        openrouter_route: Some("openrouter endpoint"),
        given: given(),
    }
}

fn is_given(price: &Option<RoutePrice<&'static str>>, expected: &str) -> bool {
    matches!(price, Some(RoutePrice::Given(name)) if *name == expected)
}

/// A pinned provider is looked up by its name, and the automatic route takes
/// the first endpoint.
#[test]
fn openrouter_pinned_endpoint_pricing_strips_pin_and_uses_endpoint_price() {
    let endpoints = Some(vec!["DeepInfra".to_string(), "Sail Research".to_string()]);
    assert!(matches!(
        openrouter_route_pricing("auto", Some("Sail Research"), &endpoints),
        OpenRouterChoice::Endpoint(1, _)
    ));
    match openrouter_route_pricing("auto", None, &endpoints) {
        OpenRouterChoice::Endpoint(0, note) => {
            assert_eq!(note, "OpenRouter auto route currently prefers DeepInfra")
        }
        other => panic!("the first endpoint, got {other:?}"),
    }
    for cached in [None, Some(Vec::new())] {
        match openrouter_route_pricing("auto", None, &cached) {
            OpenRouterChoice::Catalog(note) => {
                assert_eq!(note, "OpenRouter model catalog pricing")
            }
            other => panic!("the catalog, got {other:?}"),
        }
    }
    assert!(matches!(
        openrouter_route_pricing("Nobody", None, &endpoints),
        OpenRouterChoice::Catalog(_)
    ));
}

const OPENAI_OAUTH: AuthRoute =
    AuthRoute { provider: DualAuthProvider::OpenAI, mode: AuthMode::Oauth };

/// A subscription route of OpenAI with an API key only.
fn openai_plan_with_key(model: &str) -> RoutePlan {
    let mode = openai_effective_auth_mode(None, &Some("test-key".to_string()));
    plan_route(model, "OpenAI", "openai-oauth", Some(OPENAI_OAUTH), mode, false, true, &names())
}

#[test]
fn cheapness_for_openai_route_falls_back_to_subscription_for_unpriced_api_key_models() {
    let layers = World::without_catalog("").layers();
    let mut estimates = plan_estimates();
    estimates.given = nothing_given();
    let plan = openai_plan_with_key("gpt-4.1-mini");
    let price = cheapness_for_route(&layers, &plan, "gpt-4.1-mini", now(), estimates);
    assert!(is_given(&price, "openai plan"), "{price:?}");
}

#[test]
fn cheapness_for_openai_route_prefers_metered_api_prices_when_available() {
    let layers = World::without_catalog("").layers();
    let plan = openai_plan_with_key("gpt-5.4");
    let price = cheapness_for_route(&layers, &plan, "gpt-5.4", now(), plan_estimates());
    assert!(is_given(&price, "openai table"), "{price:?}");
}

/// No estimate of any kind stands for a call that billing refuses to price.
#[test]
fn a_refused_openai_price_is_not_replaced_by_the_plan() {
    let config = "[pricing.providers.\"openai:api-key\".models.\"gpt-5.4\"]\n\
                  effective_until = \"2020-01-01T00:00:00Z\"\n\
                  on_rule_expiry = \"no_price\"\n\
                  cost = { input = 1.0, output = 2.0 }\n";
    let layers = World::without_catalog(config).layers();
    let key_route = AuthRoute { provider: DualAuthProvider::OpenAI, mode: AuthMode::ApiKey };
    let by_key = plan_route(
        "gpt-5.4",
        "OpenAI",
        "openai-api-key",
        Some(key_route),
        AuthMode::Oauth,
        false,
        true,
        &names(),
    );
    for plan in [by_key, openai_plan_with_key("gpt-5.4")] {
        let refused = cheapness_for_route(&layers, &plan, "gpt-5.4", now(), plan_estimates());
        assert!(refused.is_none(), "{refused:?}");
        let other = cheapness_for_route(&layers, &plan, "gpt-4.1-mini", now(), plan_estimates());
        assert!(other.is_some(), "a model without a rule keeps its estimate");
    }
}

#[test]
fn copilot_zero_mode_is_what_the_setting_says() {
    assert!(copilot_zero_premium(&Some("0".to_string())));
    assert!(!copilot_zero_premium(&Some("1".to_string())));
    assert!(!copilot_zero_premium(&None));
}

#[test]
fn unified_resolver_prefers_static_tables_then_models_dev_catalog() {
    let mut layers = World::without_catalog("").layers();
    layers.catalog = catalog_of(&[
        // Deliberately wrong so that a catalog win would be visible.
        ("anthropic", "sonnet-4-6", model_cost(99.0, 99.0, None, None)),
        ("deepseek", "deepseek-v4-flash", model_cost(0.14, 0.28, Some(0.0028), None)),
    ]);
    let price = |key: &str, model: &str| {
        metered_pricing_for_source_at(&layers, key, model, now(), given())
    };
    let sonnet = price("vendor:api-key", "sonnet-4-6");
    assert!(is_given(&sonnet, "anthropic table"), "{sonnet:?}");

    let flash = metered(price("openai-compatible:deepseek", "deepseek-v4-flash"));
    assert_eq!(flash.source, RouteCostSource::ModelsDevCatalog);
    assert_eq!(micros(flash.input), 140_000);
    assert_eq!(micros(flash.output), 280_000);
    assert_eq!(flash.cache_read.map(micros), Some(2_800));

    assert!(price("openai-compatible:deepseek", "unknown-model").is_none());
}

const EUR_CARD_CONFIG: &str = r#"
[pricing.providers."vendor:api-key"]
currency = "EUR"

[pricing.providers."vendor:api-key".models."sonnet-4-6".cost]
input = 1.5
output = 4.0
"#;

#[test]
fn config_price_card_outranks_static_tables_and_catalog() {
    let mut layers = World::without_catalog(EUR_CARD_CONFIG).layers();
    layers.catalog =
        catalog_of(&[("anthropic", "sonnet-4-6", model_cost(99.0, 99.0, None, None))]);
    let estimate = metered(metered_pricing_for_source_at(
        &layers,
        "vendor:api-key",
        "sonnet-4-6",
        now(),
        given(),
    ));
    assert_eq!(estimate.source, RouteCostSource::ConfigPriceSheet);
    assert_eq!(estimate.confidence, RouteCostConfidence::Exact);
    assert_eq!(micros(estimate.input), 1_500_000);
    assert_eq!(micros(estimate.output), 4_000_000);
    assert_eq!(estimate.currency.as_str(), "EUR");
    assert_eq!(estimate.note, "config [pricing.providers] card in EUR");
}

#[test]
fn incomplete_foreign_currency_card_falls_through_to_the_models_dev_label() {
    let layers = World::new(HALF_WRITTEN_CNY_CARD_CONFIG).layers();
    let estimate = metered(metered_pricing_for_source_at(
        &layers,
        "deepseek",
        "deepseek-v4-pro",
        now(),
        given(),
    ));
    assert_eq!(estimate.source, RouteCostSource::ModelsDevCatalog);
    assert_eq!(micros(estimate.input), 660_000);
    assert_eq!(micros(estimate.output), 1_980_000);
    assert!(estimate.currency.is_usd());
}

#[test]
fn config_price_card_outranks_openrouter_endpoint_caches() {
    let config = r#"
[pricing.providers.openrouter.models."deepseek/deepseek-v4-pro-0813".cost]
input = 9.0
output = 9.0
"#;
    let layers = World::without_catalog(config).layers();
    let price = |model: &str| {
        let plan =
            plan_route(model, "auto", "openrouter", None, AuthMode::Oauth, false, false, &names());
        cheapness_for_route(&layers, &plan, model, now(), plan_estimates())
    };
    let estimate = metered(price("deepseek/deepseek-v4-pro-0813"));
    assert_eq!(estimate.source, RouteCostSource::ConfigPriceSheet);
    assert_eq!(micros(estimate.input), 9_000_000);
    assert!(estimate.currency.is_usd());

    // Without a card the endpoint cache is still the authority.
    let endpoint = price("deepseek/deepseek-v4-pro-0755");
    assert!(is_given(&endpoint, "openrouter endpoint"), "{endpoint:?}");
}

#[test]
fn derived_pricing_ignores_hand_written_config_cards() {
    let layers = World::without_catalog(EUR_CARD_CONFIG).layers();
    let configured = metered(metered_pricing_for_source_at(
        &layers,
        "vendor:api-key",
        "sonnet-4-6",
        now(),
        given(),
    ));
    assert_eq!(configured.source, RouteCostSource::ConfigPriceSheet);

    let derived = derived_pricing_for_source_at_size(
        &layers,
        "vendor:api-key",
        "sonnet-4-6",
        now(),
        None,
        given(),
    );
    assert!(is_given(&derived, "anthropic table"), "{derived:?}");
}

/// A rule that refuses a price is not replaced by any other layer.
#[test]
fn a_refusal_leaves_the_route_unpriced() {
    let layers = World::new(EXPIRED_NO_PRICE_CONFIG).layers();
    let price = metered_pricing_for_source_at(
        &layers,
        "deepseek",
        "deepseek-v4-pro",
        now(),
        given(),
    );
    assert!(price.is_none(), "{price:?}");
}

#[test]
fn a_route_is_planned_by_its_method() {
    let plan = |provider: &str, method: &str, route: Option<AuthRoute>, mode: AuthMode| {
        plan_route("m", provider, method, route, mode, true, false, &names())
    };
    let anthropic = |mode: AuthMode| Some(AuthRoute { provider: DualAuthProvider::Anthropic, mode });
    assert_eq!(
        plan("Anthropic", "x", anthropic(AuthMode::Oauth), AuthMode::Oauth),
        RoutePlan::AnthropicPlan
    );
    assert_eq!(
        plan("Anthropic", "x", anthropic(AuthMode::ApiKey), AuthMode::Oauth),
        RoutePlan::Metered("vendor:api-key".to_string())
    );
    assert_eq!(
        plan("Other", "x", anthropic(AuthMode::ApiKey), AuthMode::Oauth),
        RoutePlan::Unpriced
    );
    assert_eq!(
        plan("OpenAI", "x", Some(OPENAI_OAUTH), AuthMode::Oauth),
        RoutePlan::OpenAiPlan
    );
    assert_eq!(
        plan("x", "openai-compatible:gw", None, AuthMode::Oauth),
        RoutePlan::Metered("openai-compatible:gw".to_string())
    );
    assert_eq!(plan("x", "copilot", None, AuthMode::Oauth), RoutePlan::CopilotPlan);
    assert_eq!(
        plan("x", "openrouter", None, AuthMode::Oauth),
        RoutePlan::OpenRouter("anthropic/m".to_string())
    );
    assert_eq!(plan("x", "other", None, AuthMode::Oauth), RoutePlan::Unpriced);
}

#[test]
fn openai_bills_by_what_its_credentials_hold() {
    let key = Some(" sk ".to_string());
    let stored = |has_refresh_token: bool, has_id_token: bool| {
        Some(OpenAiCredentials { has_refresh_token, has_id_token })
    };
    assert_eq!(openai_effective_auth_mode(stored(true, false), &key), AuthMode::Oauth);
    assert_eq!(openai_effective_auth_mode(stored(false, true), &key), AuthMode::Oauth);
    assert_eq!(openai_effective_auth_mode(stored(false, false), &None), AuthMode::ApiKey);
    assert_eq!(openai_effective_auth_mode(None, &key), AuthMode::ApiKey);
    assert_eq!(openai_effective_auth_mode(None, &Some("  ".to_string())), AuthMode::Oauth);
    assert_eq!(openai_effective_auth_mode(None, &None), AuthMode::Oauth);
}

#[test]
fn auth_memos_are_dropped_together() {
    let mut memos = AuthPricingMemos::new();
    memos.keep_mode(AuthMode::ApiKey, 100);
    memos.keep_subscription(&Some(" Max ".to_string()), 100);
    assert_eq!(memos.kept_mode(100), Some(AuthMode::ApiKey));
    assert_eq!(memos.kept_subscription(100), Some(Some("max".to_string())));
    let last = 100 + AUTH_PRICING_MEMO_TTL_NANOS - 1;
    assert_eq!(memos.kept_mode(last), Some(AuthMode::ApiKey), "kept for five seconds");
    assert_eq!(memos.kept_mode(last + 1), None);
    assert_eq!(memos.kept_subscription(last + 1), None);
    assert_eq!(AUTH_PRICING_MEMO_TTL_NANOS, 5_000_000_000);
    let generation = memos.generation;
    memos.invalidate_auth_pricing_memos();
    assert_eq!(memos.kept_mode(100), None);
    assert_eq!(memos.kept_subscription(100), None);
    assert_ne!(memos.generation, generation);
}

#[test]
fn unset_fields_are_filled_and_stated_ones_kept() {
    let half = half_sheet(1.0).providers[0].1.models[0].1.cost;
    let filled = fill_missing_cost(half, model_cost(5.0, 6.0, Some(0.5), None).to_card());
    assert_eq!(filled.input, Some(rate(1.0)));
    assert_eq!(filled.output, Some(rate(6.0)));
    assert_eq!(filled.cache_read, Some(rate(0.5)));
    assert_eq!(filled.cache_write, None);
}

// ---- ordering across currencies ----

fn cny_per_usd() -> FxTable {
    FxTable::new(Currency::usd(), vec![(Currency::new("CNY"), rate(7.2))])
}

/// The comparable number of a cost of `micros` in a currency.
fn comparable(micros: Option<u64>, code: &str) -> Option<u64> {
    let fx = cny_per_usd();
    let currency = Currency::new(code);
    let quotient = match jcode_pricing::fx::plan_conversion(&currency, &fx.base, &fx) {
        Conversion::Through { from, to } => {
            micros.unwrap_or(0) as f64 / f64::from_bits(from.bits) * f64::from_bits(to.bits)
        }
        _ => 0.0,
    };
    comparable_reference_cost_micros(
        micros,
        &currency,
        &fx,
        rate(quotient),
        quotient.round() as u64,
    )
}

#[test]
fn conversion_can_reverse_the_raw_order() {
    assert_eq!(comparable(Some(7_200), "CNY"), Some(1_000));
    assert_eq!(comparable(Some(1_500), "USD"), Some(1_500));
    assert!(
        comparable(Some(7_200), "CNY") < comparable(Some(1_500), "USD"),
        "the CNY card is the cheaper route once both are in one currency"
    );
}

#[test]
fn a_currency_with_no_rate_is_not_converted() {
    assert_eq!(
        comparable(Some(7_200), "JPY"),
        None,
        "JPY has no configured rate, so it must not be ordered against USD"
    );
    assert_eq!(comparable(Some(1_500), "USD"), Some(1_500));
}

#[test]
fn an_estimate_without_a_reference_cost_has_no_order() {
    assert_eq!(comparable(None, "CNY"), None);
}

#[test]
fn an_edited_price_file_changes_the_generation() {
    let mut memo = PricingMemo::new();
    let before = memo.generation;
    memo.bump_pricing_generation();
    assert_ne!(memo.generation, before);
    memo.generation = u64::MAX;
    memo.bump_pricing_generation();
    assert_eq!(memo.generation, 0, "the counter wraps");
}
