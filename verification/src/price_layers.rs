//! Which layer prices a call, and with which card.
//!
//! In order: the user's hand-written `[pricing.providers]` cards, the vendors'
//! price files, the extra price sheets, and models.dev. Two rules hold
//! throughout: provider keys follow one set of identity rules, and a card in
//! one currency never takes over a number stated in another.

use crate::catalog;
use crate::catalog::{ModelTable, PricingCache, Sheet};
use crate::clock::Instant;
use crate::config_types::OnRuleExpiry;
use crate::currency;
use crate::currency::Currency;
use crate::entry;
use crate::entry::{EntryView, ModelPricingEntry, RuleOutOfEffect};
use crate::model;
use crate::providers;
use crate::providers::{NamesView, VendorNames};
use crate::rate::Price;
use crate::rule_types::{
    CostFields, ModelPricingRule, PricingConfig, ProviderPricing, ProviderView, RuleView,
};
use crate::rules;
use crate::rules::{Prices, SelectedTier, TierView};
use crate::source_registry;
use crate::source_registry::{OutOfEffectNotice, Question};
use crate::text;
use crate::vendor_files;
use vstd::prelude::*;

verus! {

/// What the layers hold: the validated config, the usable vendor files and
/// sheets, models.dev's catalog, and the names that keys are recognised by.
#[derive(Debug)]
pub struct PriceLayers {
    pub config: PricingConfig,
    pub vendor_files: Vec<(String, ModelTable)>,
    pub sheets: Vec<(String, Sheet)>,
    pub catalog: Option<PricingCache>,
    pub names: VendorNames,
}

/// The index of the first provider section from `from` on whose key names the
/// same provider.
pub open spec fn matching_section(
    sections: Seq<(Seq<char>, ProviderView)>,
    source_key: Seq<char>,
    names: NamesView,
    from: int,
) -> Option<int>
    decreases sections.len() - from,
{
    if from < 0 || from >= sections.len() {
        None
    } else if providers::same_provider(sections[from].0, source_key, names) {
        Some(from)
    } else {
        matching_section(sections, source_key, names, from + 1)
    }
}

/// The section that owns a source key: the one with exactly that key, else the
/// first whose key names the same provider.
pub open spec fn section_of(
    sections: Seq<(Seq<char>, ProviderView)>,
    source_key: Seq<char>,
    names: NamesView,
) -> Option<ProviderView> {
    match model::get(sections, source_key) {
        Some(section) => Some(section),
        None => match matching_section(sections, source_key, names, 0) {
            Some(i) => Some(sections[i].1),
            None => None,
        },
    }
}

/// Find the `[pricing.providers]` section that owns `source_key`.
pub fn find_provider<'a>(
    config: &'a PricingConfig,
    source_key: &str,
    names: &VendorNames,
) -> (r: Option<&'a ProviderPricing>)
    ensures
        match r {
            Some(section) => section_of(config@.providers, source_key@, names@) == Some(section@),
            None => section_of(config@.providers, source_key@, names@) is None,
        },
{
    if let Some(exact) = model::find_view(&config.providers, source_key) {
        return Some(exact);
    }
    let ghost all = config@.providers;
    let mut i: usize = 0;
    while i < config.providers.len()
        invariant
            i <= config.providers@.len(),
            all == config@.providers,
            model::get(all, source_key@) is None,
            matching_section(all, source_key@, names@, 0) == matching_section(
                all,
                source_key@,
                names@,
                i as int,
            ),
        decreases config.providers.len() - i,
    {
        if providers::provider_key_matches(config.providers[i].0.as_str(), source_key, names) {
            return Some(&config.providers[i].1);
        }
        i += 1;
    }
    None
}

/// The rule for a model: under its id as it is, else under its normal id.
pub open spec fn rule_for(rules: Seq<(Seq<char>, RuleView)>, model: Seq<char>) -> Option<RuleView> {
    match model::get(rules, model) {
        Some(rule) => Some(rule),
        None => model::get(rules, providers::normal_id(model)),
    }
}

/// Find the model rule the provider section declares for `model`.
pub fn find_rule<'a>(provider: &'a ProviderPricing, model: &str) -> (r: Option<
    &'a ModelPricingRule,
>)
    ensures
        match r {
            Some(rule) => rule_for(provider@.models, model@) == Some(rule@),
            None => rule_for(provider@.models, model@) is None,
        },
{
    if let Some(rule) = model::find_view(&provider.models, model) {
        return Some(rule);
    }
    let normal = providers::normalize_model_id(model);
    model::find_view(&provider.models, normal.as_str())
}

/// The config layer's answer for one `(provider, model)` pair.
#[derive(Debug)]
pub enum ConfigPrice {
    /// No `[pricing.providers]` rule claims this pair: ask the next layer.
    Absent,
    /// A rule claims it and these are its rates.
    Hit(ModelPricingEntry, Currency),
    /// A rule claims it but is out of effect and says to refuse a price.
    NoPrice,
    /// A rule claims it but is out of effect and leaves the call to the next
    /// layer, whose price has to be labelled.
    OutOfEffect(RuleOutOfEffect),
}

pub enum ConfigPriceView {
    Absent,
    Hit(EntryView, Seq<char>),
    NoPrice,
    OutOfEffect(RuleOutOfEffect),
}

impl View for ConfigPrice {
    type V = ConfigPriceView;

    open spec fn view(&self) -> ConfigPriceView {
        match self {
            ConfigPrice::Absent => ConfigPriceView::Absent,
            ConfigPrice::Hit(entry, currency) => ConfigPriceView::Hit(entry@, currency@),
            ConfigPrice::NoPrice => ConfigPriceView::NoPrice,
            ConfigPrice::OutOfEffect(reason) => ConfigPriceView::OutOfEffect(*reason),
        }
    }
}

/// A currency that is USD where it is not stated.
pub open spec fn currency_or_usd(currency: Option<Seq<char>>) -> Seq<char> {
    match currency {
        Some(code) => code,
        None => currency::usd_code(),
    }
}

fn copy_currency(currency: &Option<Currency>) -> (r: Currency)
    ensures
        r@ == currency_or_usd(model::opt_view(*currency)),
{
    match currency {
        Some(c) => c.clone(),
        None => Currency::usd(),
    }
}

/// What the config says about a pair at an instant.
pub open spec fn config_says(
    sections: Seq<(Seq<char>, ProviderView)>,
    source_key: Seq<char>,
    model: Seq<char>,
    at: Instant,
    names: NamesView,
) -> ConfigPriceView {
    match section_of(sections, source_key, names) {
        None => ConfigPriceView::Absent,
        Some(section) => match rule_for(section.models, model) {
            None => ConfigPriceView::Absent,
            Some(rule) => match entry::rule_entry(rule).out_of_effect(at) {
                None => ConfigPriceView::Hit(
                    entry::rule_entry(rule),
                    currency_or_usd(section.currency),
                ),
                Some(reason) => match rule.on_rule_expiry {
                    OnRuleExpiry::Fallback => ConfigPriceView::OutOfEffect(reason),
                    OnRuleExpiry::NoPrice => ConfigPriceView::NoPrice,
                },
            },
        },
    }
}

/// The config-authoritative card for `(source_key, model)`, if the user wrote
/// one that is in effect at `at`.
pub fn config_price(
    config: &PricingConfig,
    source_key: &str,
    model: &str,
    at: Instant,
    names: &VendorNames,
) -> (r: ConfigPrice)
    ensures
        r@ == config_says(config@.providers, source_key@, model@, at, names@),
{
    let provider = match find_provider(config, source_key, names) {
        Some(provider) => provider,
        None => {
            return ConfigPrice::Absent;
        },
    };
    let rule = match find_rule(provider, model) {
        Some(rule) => rule,
        None => {
            return ConfigPrice::Absent;
        },
    };
    let entry = ModelPricingEntry::from_rule(rule);
    if let Some(reason) = entry.out_of_effect_reason(at) {
        return match rule.on_rule_expiry {
            OnRuleExpiry::Fallback => ConfigPrice::OutOfEffect(reason),
            OnRuleExpiry::NoPrice => ConfigPrice::NoPrice,
        };
    }
    ConfigPrice::Hit(entry, copy_currency(&provider.currency))
}

/// The rates an entry has at an instant; one that is out of effect has its own
/// cost.
pub open spec fn effective_tier(entry: EntryView, at: Instant, input_tokens: Option<u64>) -> TierView {
    if entry.active(at) {
        rules::tier_of(entry, at, input_tokens)
    } else {
        TierView { tariff: None, context_tier: None, prices: rules::untouched(entry.cost) }
    }
}

fn tier_at(entry: &ModelPricingEntry, at: Instant, input_tokens: Option<u64>) -> (r: SelectedTier)
    ensures
        r@ == effective_tier(entry@, at, input_tokens),
{
    match rules::resolve_tier(entry, at, input_tokens) {
        Some(tier) => tier,
        None => SelectedTier {
            tariff: None,
            context_tier: None,
            prices: rules::plain_prices(entry.cost),
        },
    }
}

/// A resolved card, plus which layer actually supplied the rates.
#[derive(Debug)]
pub struct ResolvedCard {
    /// The card after the field-level merge with the next layer.
    pub entry: ModelPricingEntry,
    /// The tariff and tier that apply to it, and the rates they produce.
    pub tier: SelectedTier,
    pub currency: Currency,
    /// `false` when the card could not price the model and the rates are the
    /// next layer's.
    pub from_config: bool,
    /// The cache-write rate that the card itself states, when it states one.
    pub config_cache_write: Option<Price>,
}

#[verifier::ext_equal]
pub struct ResolvedView {
    pub entry: EntryView,
    pub tier: TierView,
    pub currency: Seq<char>,
    pub from_config: bool,
    pub config_cache_write: Option<Price>,
}

impl View for ResolvedCard {
    type V = ResolvedView;

    open spec fn view(&self) -> ResolvedView {
        ResolvedView {
            entry: self.entry@,
            tier: self.tier@,
            currency: self.currency@,
            from_config: self.from_config,
            config_cache_write: self.config_cache_write,
        }
    }
}

/// The card that the next layer offers, or one that states nothing.
pub open spec fn card_or_none(fallback: Option<CostFields>) -> CostFields {
    match fallback {
        Some(card) => card,
        None => CostFields::none(),
    }
}

/// Whether the next layer prices the model instead of an incomplete card in
/// another currency.
pub open spec fn loses(entry: EntryView, currency: Seq<char>, fallback: Option<CostFields>) -> bool {
    currency != currency::usd_code() && !entry.cost.complete() && fallback is Some
        && fallback->Some_0.complete()
}

/// The card after the merge with the next layer, whose numbers are in USD: a
/// card in USD takes what it leaves unset from there, and one in another
/// currency stands alone or loses.
pub open spec fn merged(entry: EntryView, currency: Seq<char>, fallback: Option<CostFields>) -> EntryView {
    if currency == currency::usd_code() {
        EntryView {
            cost: source_registry::filled(entry.cost, card_or_none(fallback)),
            ..entry
        }
    } else if loses(entry, currency, fallback) {
        entry::bare_entry(fallback->Some_0)
    } else {
        entry
    }
}

/// A card resolved against the next layer at an instant.
pub open spec fn resolved(
    entry: EntryView,
    currency: Seq<char>,
    fallback: Option<CostFields>,
    at: Instant,
    input_tokens: Option<u64>,
) -> ResolvedView {
    let card = merged(entry, currency, fallback);
    let tier = effective_tier(card, at, input_tokens);
    let declared = effective_tier(entry, at, input_tokens).prices.cache_write;
    ResolvedView {
        entry: card,
        tier,
        currency: if loses(entry, currency, fallback) {
            currency::usd_code()
        } else {
            currency
        },
        from_config: !loses(entry, currency, fallback),
        config_cache_write: if declared is Some {
            tier.prices.cache_write
        } else {
            None
        },
    }
}

/// Merge what a card leaves out with the next layer, and select the tariff and
/// tier on the result.
pub fn resolve_card(
    entry: ModelPricingEntry,
    currency: Currency,
    fallback: Option<CostFields>,
    at: Instant,
    input_tokens: Option<u64>,
) -> (r: ResolvedCard)
    ensures
        r@ == resolved(entry@, currency@, fallback, at, input_tokens),
{
    let declared = tier_at(&entry, at, input_tokens).prices.cache_write;
    let mut entry = entry;
    let mut currency = currency;
    let mut from_config: bool = true;
    let ghost before = entry@;
    if currency.is_usd() {
        let card: CostFields = match fallback {
            Some(card) => card,
            None => CostFields::empty(),
        };
        entry.cost = source_registry::fill_missing_cost(entry.cost, card);
        assert(entry@ =~= merged(before, currency@, fallback));
    } else if !entry.cost.is_complete() {
        if let Some(card) = fallback {
            if card.is_complete() {
                entry = ModelPricingEntry::from_cost(card);
                currency = Currency::usd();
                from_config = false;
            }
        }
    }
    let tier = tier_at(&entry, at, input_tokens);
    let config_cache_write: Option<Price> = if declared.is_some() {
        tier.prices.cache_write
    } else {
        None
    };
    ResolvedCard { entry, tier, currency, from_config, config_cache_write }
}

/// Currency follows the price: a card in another currency than USD either
/// stands as it is, in its currency, or the next layer's card does, in USD.
/// Numbers of the two never mix.
pub proof fn foreign_card_never_mixes(
    entry: EntryView,
    currency: Seq<char>,
    fallback: Option<CostFields>,
    at: Instant,
    input_tokens: Option<u64>,
)
    requires
        currency != currency::usd_code(),
    ensures
        ({
            let r = resolved(entry, currency, fallback, at, input_tokens);
            ||| r.currency == currency && r.entry == entry && r.from_config
            ||| r.currency == currency::usd_code() && fallback is Some && r.entry
                == entry::bare_entry(fallback->Some_0) && !r.from_config
        }),
{
}

/// A complete card in another currency stands on its own, whatever the next
/// layer offers.
pub proof fn complete_foreign_card_stands(
    entry: EntryView,
    currency: Seq<char>,
    one: Option<CostFields>,
    other: Option<CostFields>,
    at: Instant,
    input_tokens: Option<u64>,
)
    requires
        currency != currency::usd_code(),
        entry.cost.complete(),
    ensures
        resolved(entry, currency, one, at, input_tokens) == resolved(
            entry,
            currency,
            other,
            at,
            input_tokens,
        ),
        resolved(entry, currency, one, at, input_tokens).from_config,
{
}

/// Only a rate that the card itself states counts as its cache-write rate.
pub proof fn merged_cache_write_is_not_declared(
    entry: EntryView,
    currency: Seq<char>,
    fallback: Option<CostFields>,
    at: Instant,
    input_tokens: Option<u64>,
)
    requires
        entry.active(at),
        rules::tier_of(entry, at, input_tokens).prices.cache_write is None,
    ensures
        resolved(entry, currency, fallback, at, input_tokens).config_cache_write is None,
{
}

/// models.dev's card for a pair.
pub open spec fn dev_card(layers: PriceLayers, source_key: Seq<char>, model: Seq<char>) -> Option<
    CostFields,
> {
    match catalog::cost_in_cache(layers.catalog, source_key, model, layers.names@) {
        Some(cost) => Some(cost.card()),
        None => None,
    }
}

fn dev_fallback(layers: &PriceLayers, source_key: &str, model: &str) -> (r: Option<CostFields>)
    ensures
        r == dev_card(*layers, source_key@, model@),
{
    match catalog::lookup(&layers.catalog, source_key, model, &layers.names) {
        Some(cost) => Some(cost.to_card()),
        None => None,
    }
}

/// The sheets' answer for a pair.
pub open spec fn sheet_hit(
    layers: PriceLayers,
    source_key: Seq<char>,
    model: Seq<char>,
    at: Instant,
) -> Option<source_registry::HitView> {
    source_registry::hit_among(
        layers.config@.sources,
        model::keyed_view(layers.sheets@),
        Question { source_key, model, at, names: layers.names@ },
        layers.config@.sources.len() as int,
    )
}

/// What a hand-written card or a vendor file takes its unset fields from: a
/// sheet in USD first, then models.dev.
pub open spec fn next_card(
    layers: PriceLayers,
    source_key: Seq<char>,
    model: Seq<char>,
    at: Instant,
) -> Option<CostFields> {
    let hit = sheet_hit(layers, source_key, model, at);
    let dev = dev_card(layers, source_key, model);
    if hit is Some && hit->Some_0.currency == currency::usd_code() {
        Some(source_registry::filled(hit->Some_0.entry.cost, card_or_none(dev)))
    } else {
        dev
    }
}

pub fn next_fallback(layers: &PriceLayers, source_key: &str, model: &str, at: Instant) -> (r: Option<
    CostFields,
>)
    ensures
        r == next_card(*layers, source_key@, model@, at),
{
    let dev = dev_fallback(layers, source_key, model);
    let hit = source_registry::source_card(
        &layers.config.sources,
        &layers.sheets,
        source_key,
        model,
        at,
        &layers.names,
    );
    if let Some(hit) = hit {
        if hit.currency.is_usd() {
            let card: CostFields = match dev {
                Some(card) => card,
                None => CostFields::empty(),
            };
            return Some(source_registry::fill_missing_cost(hit.entry.cost, card));
        }
    }
    dev
}

/// The hand-written card resolved, where there is one in effect.
pub open spec fn config_card(
    layers: PriceLayers,
    source_key: Seq<char>,
    model: Seq<char>,
    at: Instant,
    input_tokens: Option<u64>,
) -> Option<ResolvedView> {
    match config_says(layers.config@.providers, source_key, model, at, layers.names@) {
        ConfigPriceView::Hit(entry, currency) => Some(
            resolved(
                entry,
                currency,
                next_card(layers, source_key, model, at),
                at,
                input_tokens,
            ),
        ),
        _ => None,
    }
}

fn resolve_config(
    layers: &PriceLayers,
    source_key: &str,
    model: &str,
    at: Instant,
    input_tokens: Option<u64>,
) -> (r: Option<ResolvedCard>)
    ensures
        model::opt_view(r) == config_card(*layers, source_key@, model@, at, input_tokens),
{
    match config_price(&layers.config, source_key, model, at, &layers.names) {
        ConfigPrice::Hit(entry, currency) => {
            let fallback = next_fallback(layers, source_key, model, at);
            Some(resolve_card(entry, currency, fallback, at, input_tokens))
        },
        _ => None,
    }
}

/// A card as the layer that priced the call leaves it.
#[derive(Debug)]
pub struct EffectiveCard {
    pub entry: ModelPricingEntry,
    /// The rates in effect, tariff and tier applied.
    pub prices: Prices,
    pub currency: Currency,
}

#[verifier::ext_equal]
pub struct EffectiveView {
    pub entry: EntryView,
    pub prices: Prices,
    pub currency: Seq<char>,
}

impl View for EffectiveCard {
    type V = EffectiveView;

    open spec fn view(&self) -> EffectiveView {
        EffectiveView { entry: self.entry@, prices: self.prices, currency: self.currency@ }
    }
}

pub open spec fn effective(card: ResolvedView) -> EffectiveView {
    EffectiveView { entry: card.entry, prices: card.tier.prices, currency: card.currency }
}

fn into_effective(card: ResolvedCard) -> (r: EffectiveCard)
    ensures
        r@ == effective(card@),
{
    EffectiveCard { entry: card.entry, prices: card.tier.prices, currency: card.currency }
}

/// The hand-written card for `(provider, model)` at `at`, if it is what prices
/// the model. It never falls back to another layer.
pub fn configured_entry(layers: &PriceLayers, provider: &str, model: &str, at: Instant) -> (r: Option<
    EffectiveCard,
>)
    ensures
        model::opt_view(r) == match config_card(*layers, provider@, model@, at, None) {
            Some(card) => if card.from_config {
                Some(effective(card))
            } else {
                None
            },
            None => None,
        },
{
    match resolve_config(layers, provider, model, at, None) {
        Some(card) => if card.from_config {
            Some(into_effective(card))
        } else {
            None
        },
        None => None,
    }
}

/// The name of the tariff that the hand-written card uses at `at`.
pub fn selected_config_tariff(layers: &PriceLayers, provider: &str, model: &str, at: Instant) -> (r: Option<
    String,
>)
    ensures
        model::opt_view(r) == match config_card(*layers, provider@, model@, at, None) {
            Some(card) => if card.from_config {
                card.tier.tariff
            } else {
                None
            },
            None => None,
        },
{
    match resolve_config(layers, provider, model, at, None) {
        Some(card) => if card.from_config {
            card.tier.tariff
        } else {
            None
        },
        None => None,
    }
}

/// The vendor file that prices a call, and its card.
#[derive(Debug)]
pub struct VendorCard {
    pub vendor: String,
    pub card: ResolvedCard,
}

#[verifier::ext_equal]
pub struct VendorView {
    pub vendor: Seq<char>,
    pub card: ResolvedView,
}

impl View for VendorCard {
    type V = VendorView;

    open spec fn view(&self) -> VendorView {
        VendorView { vendor: self.vendor@, card: self.card@ }
    }
}

/// The rule of the `index`th provider's price file for a model, where the
/// provider has a usable file that names it.
pub open spec fn file_rule(layers: PriceLayers, index: int, model: Seq<char>) -> Option<EntryView> {
    if layers.config@.providers[index].1.file is Some {
        vendor_files::rule_in(
            model::keyed_view(layers.vendor_files@),
            layers.config@.providers[index].0,
            model,
        )
    } else {
        None
    }
}

/// The card that a vendor's file puts forward: its rule is in effect, prices
/// the call by its own numbers or in its own currency, and states both rates.
pub open spec fn file_card(
    layers: PriceLayers,
    index: int,
    source_key: Seq<char>,
    model: Seq<char>,
    at: Instant,
    input_tokens: Option<u64>,
) -> Option<ResolvedView> {
    match file_rule(layers, index, model) {
        None => None,
        Some(entry) => if !entry.active(at) {
            None
        } else {
            let card = resolved(
                entry,
                currency_or_usd(layers.config@.providers[index].1.currency),
                next_card(layers, source_key, model, at),
                at,
                input_tokens,
            );
            if card.from_config && card.entry.cost.complete() {
                Some(card)
            } else {
                None
            }
        },
    }
}

/// The card of the first vendor from `from` on whose file prices the call.
pub open spec fn vendor_card_from(
    layers: PriceLayers,
    source_key: Seq<char>,
    model: Seq<char>,
    at: Instant,
    input_tokens: Option<u64>,
    from: int,
) -> Option<VendorView>
    decreases layers.config@.providers.len() - from,
{
    if from < 0 || from >= layers.config@.providers.len() {
        None
    } else {
        match file_card(layers, from, source_key, model, at, input_tokens) {
            Some(card) => Some(VendorView { vendor: layers.config@.providers[from].0, card }),
            None => vendor_card_from(layers, source_key, model, at, input_tokens, from + 1),
        }
    }
}

/// The vendor file that prices the call, whatever its route. Vendors are asked
/// in the order of their keys and never merged with each other.
pub fn vendor_file_card_at_size(
    layers: &PriceLayers,
    provider: &str,
    model: &str,
    at: Instant,
    input_tokens: Option<u64>,
) -> (r: Option<VendorCard>)
    ensures
        model::opt_view(r) == vendor_card_from(
            *layers,
            provider@,
            model@,
            at,
            input_tokens,
            0,
        ),
{
    let fallback = next_fallback(layers, provider, model, at);
    let mut i: usize = 0;
    while i < layers.config.providers.len()
        invariant
            i <= layers.config.providers@.len(),
            fallback == next_card(*layers, provider@, model@, at),
            vendor_card_from(*layers, provider@, model@, at, input_tokens, 0)
                == vendor_card_from(*layers, provider@, model@, at, input_tokens, i as int),
        decreases layers.config.providers.len() - i,
    {
        let section = &layers.config.providers[i];
        let ghost view = layers.config@.providers[i as int];
        assert(view == (section.0@, section.1@));
        if section.1.file.is_some() {
            if let Some(entry) = vendor_files::vendor_rule(
                &layers.vendor_files,
                section.0.as_str(),
                model,
            ) {
                if entry.is_active_at(at) {
                    let card = resolve_card(
                        entry.clone(),
                        copy_currency(&section.1.currency),
                        fallback,
                        at,
                        input_tokens,
                    );
                    if card.from_config && card.entry.cost.is_complete() {
                        return Some(VendorCard { vendor: section.0.clone(), card });
                    }
                }
            }
        }
        i += 1;
    }
    None
}

/// The first vendor from `from` on whose file states a rule for the model
/// decides: it either prices the call, or its being out of effect is reported.
pub open spec fn file_out_of_effect(
    layers: PriceLayers,
    model: Seq<char>,
    at: Instant,
    from: int,
) -> Option<(Seq<char>, RuleOutOfEffect)>
    decreases layers.config@.providers.len() - from,
{
    if from < 0 || from >= layers.config@.providers.len() {
        None
    } else {
        match file_rule(layers, from, model) {
            Some(entry) => match entry.out_of_effect(at) {
                Some(reason) => Some((layers.config@.providers[from].0, reason)),
                None => None,
            },
            None => file_out_of_effect(layers, model, at, from + 1),
        }
    }
}

/// The notice about a vendor file's rule that is out of effect at `at`, if any.
pub fn vendor_file_rule_out_of_effect(layers: &PriceLayers, model: &str, at: Instant) -> (r: Option<
    OutOfEffectNotice,
>)
    ensures
        ({
            let found = file_out_of_effect(*layers, model@, at, 0);
            match r {
                Some(notice) => {
                    &&& found is Some
                    &&& notice.owner@ == "pricing provider `"@ + found->Some_0.0 + "` file"@
                    &&& notice.reason == found->Some_0.1
                },
                None => found is None,
            }
        }),
{
    let mut i: usize = 0;
    while i < layers.config.providers.len()
        invariant
            i <= layers.config.providers@.len(),
            file_out_of_effect(*layers, model@, at, 0) == file_out_of_effect(
                *layers,
                model@,
                at,
                i as int,
            ),
        decreases layers.config.providers.len() - i,
    {
        let section = &layers.config.providers[i];
        let ghost view = layers.config@.providers[i as int];
        assert(view == (section.0@, section.1@));
        if section.1.file.is_some() {
            if let Some(entry) = vendor_files::vendor_rule(
                &layers.vendor_files,
                section.0.as_str(),
                model,
            ) {
                return match entry.out_of_effect_reason(at) {
                    Some(reason) => Some(
                        OutOfEffectNotice {
                            owner: text::join3("pricing provider `", section.0.as_str(), "` file"),
                            reason,
                        },
                    ),
                    None => None,
                };
            }
        }
        i += 1;
    }
    None
}

/// The sheet that prices a call, and its card resolved against models.dev.
#[derive(Debug)]
pub struct SheetCard {
    pub source_id: String,
    pub card: ResolvedCard,
}

#[verifier::ext_equal]
pub struct SheetCardView {
    pub source_id: Seq<char>,
    pub card: ResolvedView,
}

impl View for SheetCard {
    type V = SheetCardView;

    open spec fn view(&self) -> SheetCardView {
        SheetCardView { source_id: self.source_id@, card: self.card@ }
    }
}

/// The sheets' card for a call. What it leaves unset comes from models.dev.
pub open spec fn sheet_card(
    layers: PriceLayers,
    source_key: Seq<char>,
    model: Seq<char>,
    at: Instant,
    input_tokens: Option<u64>,
) -> Option<SheetCardView> {
    match sheet_hit(layers, source_key, model, at) {
        Some(hit) => Some(
            SheetCardView {
                source_id: hit.source_id,
                card: resolved(
                    hit.entry,
                    hit.currency,
                    dev_card(layers, source_key, model),
                    at,
                    input_tokens,
                ),
            },
        ),
        None => None,
    }
}

/// The sheets' card for a call of a given size.
pub fn source_card_at_size(
    layers: &PriceLayers,
    source_key: &str,
    model: &str,
    at: Instant,
    input_tokens: Option<u64>,
) -> (r: Option<SheetCard>)
    ensures
        model::opt_view(r) == sheet_card(*layers, source_key@, model@, at, input_tokens),
{
    let hit = source_registry::source_card(
        &layers.config.sources,
        &layers.sheets,
        source_key,
        model,
        at,
        &layers.names,
    );
    match hit {
        Some(hit) => {
            let fallback = dev_fallback(layers, source_key, model);
            Some(
                SheetCard {
                    source_id: hit.source_id,
                    card: resolve_card(hit.entry, hit.currency, fallback, at, input_tokens),
                },
            )
        },
        None => None,
    }
}

/// models.dev's card for a call, always in USD.
pub open spec fn dev_entry(
    layers: PriceLayers,
    source_key: Seq<char>,
    model: Seq<char>,
    at: Instant,
    input_tokens: Option<u64>,
) -> Option<EffectiveView> {
    match catalog::entry_in_cache(layers.catalog, source_key, model, layers.names@) {
        Some(entry) => if entry.cost.complete() {
            Some(
                EffectiveView {
                    entry,
                    prices: effective_tier(entry, at, input_tokens).prices,
                    currency: currency::usd_code(),
                },
            )
        } else {
            None
        },
        None => None,
    }
}

/// The models.dev layer's card.
pub fn models_dev_entry(
    layers: &PriceLayers,
    provider: &str,
    model: &str,
    at: Instant,
    input_tokens: Option<u64>,
) -> (r: Option<EffectiveCard>)
    ensures
        model::opt_view(r) == dev_entry(*layers, provider@, model@, at, input_tokens),
{
    match catalog::lookup_entry(&layers.catalog, provider, model, &layers.names) {
        Some(entry) => if entry.cost.is_complete() {
            let prices = tier_at(entry, at, input_tokens).prices;
            Some(EffectiveCard { entry: entry.clone(), prices, currency: Currency::usd() })
        } else {
            None
        },
        None => None,
    }
}

/// The card below the hand-written ones: a vendor file's, else a sheet's, else
/// models.dev's.
pub open spec fn derived_entry(
    layers: PriceLayers,
    source_key: Seq<char>,
    model: Seq<char>,
    at: Instant,
    input_tokens: Option<u64>,
) -> Option<EffectiveView> {
    match vendor_card_from(layers, source_key, model, at, input_tokens, 0) {
        Some(vendor) => Some(effective(vendor.card)),
        None => match sheet_card(layers, source_key, model, at, input_tokens) {
            Some(sheet) => Some(effective(sheet.card)),
            None => dev_entry(layers, source_key, model, at, input_tokens),
        },
    }
}

/// The card that is in effect for a call: the hand-written one, unless there is
/// none in effect, and then the one below. A rule that refuses a price leaves
/// none.
pub open spec fn entry_in_effect(
    layers: PriceLayers,
    source_key: Seq<char>,
    model: Seq<char>,
    at: Instant,
    input_tokens: Option<u64>,
) -> Option<EffectiveView> {
    match config_says(layers.config@.providers, source_key, model, at, layers.names@) {
        ConfigPriceView::NoPrice => None,
        ConfigPriceView::Hit(entry, currency) => Some(
            effective(
                resolved(
                    entry,
                    currency,
                    next_card(layers, source_key, model, at),
                    at,
                    input_tokens,
                ),
            ),
        ),
        _ => derived_entry(layers, source_key, model, at, input_tokens),
    }
}

fn resolve_derived(
    layers: &PriceLayers,
    provider: &str,
    model: &str,
    at: Instant,
    input_tokens: Option<u64>,
) -> (r: Option<EffectiveCard>)
    ensures
        model::opt_view(r) == derived_entry(*layers, provider@, model@, at, input_tokens),
{
    if let Some(vendor) = vendor_file_card_at_size(layers, provider, model, at, input_tokens) {
        return Some(into_effective(vendor.card));
    }
    if let Some(sheet) = source_card_at_size(layers, provider, model, at, input_tokens) {
        return Some(into_effective(sheet.card));
    }
    models_dev_entry(layers, provider, model, at, input_tokens)
}

/// The effective rate card for `(provider, model)` at `at`, together with the
/// currency of the layer that produced it.
pub fn effective_entry_at_size(
    layers: &PriceLayers,
    provider: &str,
    model: &str,
    at: Instant,
    input_tokens: Option<u64>,
) -> (r: Option<EffectiveCard>)
    ensures
        model::opt_view(r) == entry_in_effect(*layers, provider@, model@, at, input_tokens),
{
    match config_price(&layers.config, provider, model, at, &layers.names) {
        ConfigPrice::NoPrice => None,
        ConfigPrice::Hit(entry, currency) => {
            let fallback = next_fallback(layers, provider, model, at);
            Some(into_effective(resolve_card(entry, currency, fallback, at, input_tokens)))
        },
        ConfigPrice::Absent => resolve_derived(layers, provider, model, at, input_tokens),
        ConfigPrice::OutOfEffect(_) => resolve_derived(layers, provider, model, at, input_tokens),
    }
}

/// [`effective_entry_at_size`] of a call whose size is not known.
pub fn effective_entry(layers: &PriceLayers, provider: &str, model: &str, at: Instant) -> (r: Option<
    EffectiveCard,
>)
    ensures
        model::opt_view(r) == entry_in_effect(*layers, provider@, model@, at, None),
{
    effective_entry_at_size(layers, provider, model, at, None)
}

/// Input tokens of the request that routes are compared by.
pub const CHEAPNESS_REFERENCE_INPUT_TOKENS: u64 = 25_000;

/// Output tokens of the request that routes are compared by.
pub const CHEAPNESS_REFERENCE_OUTPUT_TOKENS: u64 = 5_000;

/// What the reference request costs, as the rates it is charged by: its cost is
/// `(input * 25000 + output * 5000) / 1000000` in the currency.
#[derive(Debug)]
pub struct ReferenceCost {
    pub input: Price,
    pub output: Price,
    pub currency: Currency,
}

/// What one reference request costs on this route at `at`. `None` means that it
/// cannot be priced.
pub fn effective_cost(layers: &PriceLayers, provider: &str, model: &str, at: Instant) -> (r: Option<
    ReferenceCost,
>)
    ensures
        match entry_in_effect(*layers, provider@, model@, at, None) {
            Some(card) => if card.prices.input is Some && card.prices.output is Some {
                &&& r is Some
                &&& r->Some_0.input == card.prices.input->Some_0
                &&& r->Some_0.output == card.prices.output->Some_0
                &&& r->Some_0.currency@ == card.currency
            } else {
                r is None
            },
            None => r is None,
        },
{
    match effective_entry(layers, provider, model, at) {
        Some(card) => match (card.prices.input, card.prices.output) {
            (Some(input), Some(output)) => Some(
                ReferenceCost { input, output, currency: card.currency },
            ),
            _ => None,
        },
        None => None,
    }
}

/// A hand-written card in effect that owns its price outranks every other
/// layer: nothing that they hold changes whose card it is or its currency.
pub proof fn config_card_outranks_the_rest(
    layers: PriceLayers,
    source_key: Seq<char>,
    model: Seq<char>,
    at: Instant,
    input_tokens: Option<u64>,
)
    requires
        config_card(layers, source_key, model, at, input_tokens) is Some,
    ensures
        entry_in_effect(layers, source_key, model, at, input_tokens) == Some(
            effective(config_card(layers, source_key, model, at, input_tokens)->Some_0),
        ),
{
}

/// Without a hand-written card in effect a vendor file outranks the sheets, and
/// a sheet outranks models.dev.
pub proof fn derived_layers_rank(
    layers: PriceLayers,
    source_key: Seq<char>,
    model: Seq<char>,
    at: Instant,
    input_tokens: Option<u64>,
)
    requires
        config_says(layers.config@.providers, source_key, model, at, layers.names@) is Absent || config_says(
            layers.config@.providers,
            source_key,
            model,
            at,
            layers.names@,
        ) is OutOfEffect,
    ensures
        ({
            let vendor = vendor_card_from(layers, source_key, model, at, input_tokens, 0);
            let sheet = sheet_card(layers, source_key, model, at, input_tokens);
            let price = entry_in_effect(layers, source_key, model, at, input_tokens);
            &&& vendor is Some ==> price == Some(effective(vendor->Some_0.card))
            &&& vendor is None && sheet is Some ==> price == Some(effective(sheet->Some_0.card))
            &&& vendor is None && sheet is None ==> price == dev_entry(
                layers,
                source_key,
                model,
                at,
                input_tokens,
            )
        }),
{
}

/// With nothing configured the price is models.dev's.
pub proof fn empty_config_is_models_dev(
    layers: PriceLayers,
    source_key: Seq<char>,
    model: Seq<char>,
    at: Instant,
    input_tokens: Option<u64>,
)
    requires
        layers.config@.providers.len() == 0,
        layers.config@.sources.len() == 0,
    ensures
        entry_in_effect(layers, source_key, model, at, input_tokens) == dev_entry(
            layers,
            source_key,
            model,
            at,
            input_tokens,
        ),
{
}

/// What makes one derived price different from another: the vendor file with
/// its tariff, and the long-context tier.
#[derive(Debug, PartialEq, Eq)]
pub struct DerivedPriceIdentity {
    pub vendor_file: Option<String>,
    pub context_tier: Option<u64>,
}

/// The name of a vendor file with the tariff in force.
pub open spec fn vendor_identity(vendor: VendorView) -> Seq<char> {
    match vendor.card.tier.tariff {
        Some(tariff) => vendor.vendor + ":"@ + tariff,
        None => vendor.vendor,
    }
}

/// What identifies the derived price of a call, for callers that keep prices.
pub fn derived_price_identity(
    layers: &PriceLayers,
    provider: &str,
    model: &str,
    at: Instant,
    input_tokens: Option<u64>,
) -> (r: DerivedPriceIdentity)
    ensures
        ({
            let vendor = vendor_card_from(*layers, provider@, model@, at, input_tokens, 0);
            let sheet = sheet_card(*layers, provider@, model@, at, input_tokens);
            let dev = catalog::entry_in_cache(layers.catalog, provider@, model@, layers.names@);
            &&& model::opt_view(r.vendor_file) == match vendor {
                Some(vendor) => Some(vendor_identity(vendor)),
                None => None,
            }
            &&& r.context_tier == if vendor is Some {
                vendor->Some_0.card.tier.context_tier
            } else if sheet is Some {
                sheet->Some_0.card.tier.context_tier
            } else if dev is Some {
                effective_tier(dev->Some_0, at, input_tokens).context_tier
            } else {
                None
            }
        }),
{
    if let Some(vendor) = vendor_file_card_at_size(layers, provider, model, at, input_tokens) {
        let id = match &vendor.card.tier.tariff {
            Some(tariff) => text::join3(vendor.vendor.as_str(), ":", tariff.as_str()),
            None => vendor.vendor.clone(),
        };
        return DerivedPriceIdentity {
            vendor_file: Some(id),
            context_tier: vendor.card.tier.context_tier,
        };
    }
    if let Some(sheet) = source_card_at_size(layers, provider, model, at, input_tokens) {
        return DerivedPriceIdentity {
            vendor_file: None,
            context_tier: sheet.card.tier.context_tier,
        };
    }
    let context_tier: Option<u64> = match catalog::lookup_entry(
        &layers.catalog,
        provider,
        model,
        &layers.names,
    ) {
        Some(entry) => tier_at(entry, at, input_tokens).context_tier,
        None => None,
    };
    DerivedPriceIdentity { vendor_file: None, context_tier }
}

proof fn lemma_matching_section(
    sections: Seq<(Seq<char>, ProviderView)>,
    source_key: Seq<char>,
    names: NamesView,
    from: int,
    at: int,
)
    requires
        0 <= from <= at <= sections.len(),
        forall|k: int|
            from <= k < at ==> !providers::same_provider(
                (#[trigger] sections[k]).0,
                source_key,
                names,
            ),
        at < sections.len() ==> providers::same_provider(sections[at].0, source_key, names),
    ensures
        matching_section(sections, source_key, names, from) == if at < sections.len() {
            Some(at)
        } else {
            None
        },
    decreases at - from,
{
    if from < at {
        assert(!providers::same_provider(sections[from].0, source_key, names));
        lemma_matching_section(sections, source_key, names, from + 1, at);
    }
}

/// The section with exactly the key owns it; without one the first section whose
/// key names the same provider does, and without such a one none.
pub proof fn section_is_found_by_its_key(
    sections: Seq<(Seq<char>, ProviderView)>,
    source_key: Seq<char>,
    names: NamesView,
    at: int,
)
    requires
        0 <= at <= sections.len(),
    ensures
        at < sections.len() && sections[at].0 == source_key && (forall|k: int|
            0 <= k < at ==> (#[trigger] sections[k]).0 != source_key) ==> section_of(
            sections,
            source_key,
            names,
        ) == Some(sections[at].1),
        (forall|k: int| 0 <= k < sections.len() ==> (#[trigger] sections[k]).0 != source_key) && (
        forall|k: int|
            0 <= k < at ==> !providers::same_provider(
                (#[trigger] sections[k]).0,
                source_key,
                names,
            )) ==> ({
            &&& at < sections.len() && providers::same_provider(sections[at].0, source_key, names)
                ==> section_of(sections, source_key, names) == Some(sections[at].1)
            &&& at == sections.len() ==> section_of(sections, source_key, names) is None
        }),
{
    model::lemma_index_from(sections, source_key, 0);
    if forall|k: int|
        0 <= k < at ==> !providers::same_provider((#[trigger] sections[k]).0, source_key, names) {
        if at == sections.len() || providers::same_provider(sections[at].0, source_key, names) {
            lemma_matching_section(sections, source_key, names, 0, at);
        }
    }
}

/// A model's rule is the one under its id as it is; only without one is it the
/// one under the id without its local parts.
pub proof fn rule_is_found_by_its_id(rules: Seq<(Seq<char>, RuleView)>, model: Seq<char>, at: int)
    requires
        0 <= at < rules.len(),
        forall|k: int| 0 <= k < at ==> (#[trigger] rules[k]).0 != rules[at].0,
    ensures
        rules[at].0 == model ==> rule_for(rules, model) == Some(rules[at].1),
        rules[at].0 == providers::normal_id(model) && (forall|k: int|
            0 <= k < rules.len() ==> (#[trigger] rules[k]).0 != model) ==> rule_for(rules, model)
            == Some(rules[at].1),
{
    model::lemma_index_from(rules, model, 0);
    model::lemma_index_from(rules, rules[at].0, 0);
}

/// A model that no rule names has none.
pub proof fn unnamed_model_has_no_rule(rules: Seq<(Seq<char>, RuleView)>, model: Seq<char>)
    requires
        forall|k: int|
            0 <= k < rules.len() ==> (#[trigger] rules[k]).0 != model && rules[k].0
                != providers::normal_id(model),
    ensures
        rule_for(rules, model) is None,
{
    model::lemma_index_from(rules, model, 0);
    model::lemma_index_from(rules, providers::normal_id(model), 0);
}

/// What the config says of a pair: nothing without a rule; the rule in effect,
/// in its section's currency, which is the US dollar where none is stated; and of
/// a rule out of effect that it refuses the price or leaves it to the next layer,
/// as the rule says.
pub proof fn config_says_what_its_rule_says(
    sections: Seq<(Seq<char>, ProviderView)>,
    source_key: Seq<char>,
    model: Seq<char>,
    at: Instant,
    names: NamesView,
)
    ensures
        ({
            let says = config_says(sections, source_key, model, at, names);
            let section = section_of(sections, source_key, names);
            match section {
                None => says is Absent,
                Some(section) => match rule_for(section.models, model) {
                    None => says is Absent,
                    Some(rule) => {
                        let entry = entry::rule_entry(rule);
                        let refuses = rule.on_rule_expiry == OnRuleExpiry::NoPrice;
                        &&& entry.active(at) ==> says == ConfigPriceView::Hit(
                            entry,
                            if section.currency is Some {
                                section.currency->Some_0
                            } else {
                                "USD"@
                            },
                        )
                        &&& !entry.active(at) && refuses ==> says is NoPrice
                        &&& !entry.active(at) && !refuses ==> says
                            == ConfigPriceView::OutOfEffect(entry.out_of_effect(at)->Some_0)
                    },
                },
            }
        }),
{
}

/// A card in US dollars takes what it leaves unset from the next layer, field by
/// field, and keeps all that it states.
pub proof fn dollar_card_is_completed(
    entry: EntryView,
    fallback: Option<CostFields>,
    at: Instant,
    input_tokens: Option<u64>,
    field: source_registry::RateField,
)
    ensures
        ({
            let got = resolved(entry, "USD"@, fallback, at, input_tokens);
            let own = source_registry::rate_in(entry.cost, field);
            let after = source_registry::rate_in(got.entry.cost, field);
            &&& got.from_config
            &&& got.currency == "USD"@
            &&& own is Some ==> after == own
            &&& own is None && fallback is Some ==> after == source_registry::rate_in(
                fallback->Some_0,
                field,
            )
            &&& own is None && fallback is None ==> after is None
            &&& got.entry.tariffs == entry.tariffs
            &&& got.entry.schedule == entry.schedule
            &&& got.entry.context_tiers == entry.context_tiers
            &&& got.entry.default_tariff == entry.default_tariff
            &&& got.entry.effective_from == entry.effective_from
            &&& got.entry.effective_until == entry.effective_until
        }),
{
}

/// A card in another currency loses to the next layer exactly where it lacks a
/// direction and the next layer has both.
pub proof fn incomplete_foreign_card_loses(
    entry: EntryView,
    currency: Seq<char>,
    fallback: Option<CostFields>,
    at: Instant,
    input_tokens: Option<u64>,
)
    requires
        currency != "USD"@,
    ensures
        ({
            let got = resolved(entry, currency, fallback, at, input_tokens);
            let lacks = entry.cost.input is None || entry.cost.output is None;
            let next = fallback is Some && fallback->Some_0.input is Some
                && fallback->Some_0.output is Some;
            &&& !got.from_config <==> lacks && next
            &&& !got.from_config ==> got.currency == "USD"@ && got.entry.cost == fallback->Some_0
            &&& got.from_config ==> got.currency == currency && got.entry == entry
        }),
{
}

/// A resolved card has the rates that its entry has at the instant of the call,
/// for the call's size.
pub proof fn resolved_card_has_the_rates_of_the_instant(
    entry: EntryView,
    currency: Seq<char>,
    fallback: Option<CostFields>,
    at: Instant,
    input_tokens: Option<u64>,
)
    ensures
        ({
            let got = resolved(entry, currency, fallback, at, input_tokens);
            &&& got.entry.active(at) ==> got.tier == rules::tier_of(got.entry, at, input_tokens)
            &&& !got.entry.active(at) ==> got.tier.prices == rules::untouched(got.entry.cost)
                && got.tier.tariff is None && got.tier.context_tier is None
            &&& got.config_cache_write is Some ==> got.config_cache_write
                == got.tier.prices.cache_write
        }),
{
}

/// What the hand-written cards and the vendor files take unset fields from is a
/// sheet in US dollars, completed by models.dev, and models.dev alone where no
/// such sheet prices the pair.
pub proof fn next_layer_is_a_dollar_sheet_or_the_catalog(
    layers: PriceLayers,
    source_key: Seq<char>,
    model: Seq<char>,
    at: Instant,
    field: source_registry::RateField,
)
    ensures
        ({
            let hit = sheet_hit(layers, source_key, model, at);
            let dev = dev_card(layers, source_key, model);
            let next = next_card(layers, source_key, model, at);
            let dollars = hit is Some && hit->Some_0.currency == "USD"@;
            &&& !dollars ==> next == dev
            &&& dollars ==> next is Some
            &&& dollars ==> ({
                let own = source_registry::rate_in(hit->Some_0.entry.cost, field);
                let got = source_registry::rate_in(next->Some_0, field);
                &&& own is Some ==> got == own
                &&& own is None && dev is Some ==> got == source_registry::rate_in(
                    dev->Some_0,
                    field,
                )
                &&& own is None && dev is None ==> got is None
            })
        }),
{
}

/// The first vendor whose file prices the call puts forward its card.
pub proof fn first_pricing_vendor_wins(
    layers: PriceLayers,
    source_key: Seq<char>,
    model: Seq<char>,
    at: Instant,
    input_tokens: Option<u64>,
    from: int,
    first: int,
)
    requires
        0 <= from <= first <= layers.config@.providers.len(),
        forall|k: int|
            from <= k < first ==> (#[trigger] file_card(
                layers,
                k,
                source_key,
                model,
                at,
                input_tokens,
            )) is None,
        first < layers.config@.providers.len() ==> file_card(
            layers,
            first,
            source_key,
            model,
            at,
            input_tokens,
        ) is Some,
    ensures
        ({
            let got = vendor_card_from(layers, source_key, model, at, input_tokens, from);
            &&& first == layers.config@.providers.len() ==> got is None
            &&& first < layers.config@.providers.len() ==> {
                &&& got is Some
                &&& got->Some_0.vendor == layers.config@.providers[first].0
                &&& got->Some_0.card == file_card(
                    layers,
                    first,
                    source_key,
                    model,
                    at,
                    input_tokens,
                )->Some_0
            }
        }),
    decreases first - from,
{
    if from < first {
        assert(file_card(layers, from, source_key, model, at, input_tokens) is None);
        first_pricing_vendor_wins(
            layers,
            source_key,
            model,
            at,
            input_tokens,
            from + 1,
            first,
        );
    }
}

/// A vendor's file prices a call where it states a rule for the model that is in
/// effect, in the vendor's currency, and both directions are known; a file that
/// the config does not name prices nothing.
pub proof fn vendor_file_prices_by_its_own_rule(
    layers: PriceLayers,
    index: int,
    source_key: Seq<char>,
    model: Seq<char>,
    at: Instant,
    input_tokens: Option<u64>,
)
    requires
        0 <= index < layers.config@.providers.len(),
    ensures
        ({
            let section = layers.config@.providers[index];
            let rule = vendor_files::rule_in(
                model::keyed_view(layers.vendor_files@),
                section.0,
                model,
            );
            let currency = if section.1.currency is Some {
                section.1.currency->Some_0
            } else {
                "USD"@
            };
            let got = file_card(layers, index, source_key, model, at, input_tokens);
            &&& section.1.file is None ==> got is None
            &&& rule is None ==> got is None
            &&& rule is Some && !rule->Some_0.active(at) ==> got is None
            &&& section.1.file is Some && rule is Some && rule->Some_0.active(at) ==> ({
                let card = resolved(
                    rule->Some_0,
                    currency,
                    next_card(layers, source_key, model, at),
                    at,
                    input_tokens,
                );
                let whole = card.entry.cost.input is Some && card.entry.cost.output is Some;
                &&& card.from_config && whole ==> got == Some(card)
                &&& !card.from_config || !whole ==> got is None
            })
        }),
{
}

/// The first vendor whose file states a rule for the model is the one whose
/// being out of effect is reported; in effect none is.
pub proof fn first_stating_vendor_is_reported(
    layers: PriceLayers,
    model: Seq<char>,
    at: Instant,
    from: int,
    first: int,
)
    requires
        0 <= from <= first < layers.config@.providers.len(),
        forall|k: int| from <= k < first ==> (#[trigger] file_rule(layers, k, model)) is None,
        file_rule(layers, first, model) is Some,
    ensures
        match file_rule(layers, first, model)->Some_0.out_of_effect(at) {
            Some(reason) => file_out_of_effect(layers, model, at, from) == Some(
                (layers.config@.providers[first].0, reason),
            ),
            None => file_out_of_effect(layers, model, at, from) is None,
        },
    decreases first - from,
{
    if from < first {
        assert(file_rule(layers, from, model) is None);
        first_stating_vendor_is_reported(layers, model, at, from + 1, first);
    }
}

/// A sheet's card is its answer, resolved against models.dev for the instant and
/// the size of the call.
pub proof fn sheet_card_is_completed_by_the_catalog(
    layers: PriceLayers,
    source_key: Seq<char>,
    model: Seq<char>,
    at: Instant,
    input_tokens: Option<u64>,
)
    ensures
        ({
            let hit = source_registry::hit_among(
                layers.config@.sources,
                model::keyed_view(layers.sheets@),
                Question { source_key, model, at, names: layers.names@ },
                layers.config@.sources.len() as int,
            );
            let got = sheet_card(layers, source_key, model, at, input_tokens);
            &&& got is Some <==> hit is Some
            &&& hit is Some ==> got->Some_0.source_id == hit->Some_0.source_id
            &&& hit is Some ==> got->Some_0.card == resolved(
                hit->Some_0.entry,
                hit->Some_0.currency,
                dev_card(layers, source_key, model),
                at,
                input_tokens,
            )
        }),
{
}

/// The catalog prices a call in US dollars by the entry it has for the model,
/// where that states both directions.
pub proof fn catalog_prices_by_its_own_entry(
    layers: PriceLayers,
    source_key: Seq<char>,
    model: Seq<char>,
    at: Instant,
    input_tokens: Option<u64>,
)
    ensures
        ({
            let entry = catalog::entry_in_cache(
                layers.catalog,
                source_key,
                model,
                layers.names@,
            );
            let got = dev_entry(layers, source_key, model, at, input_tokens);
            &&& got is Some <==> entry is Some && entry->Some_0.cost.input is Some
                && entry->Some_0.cost.output is Some
            &&& got is Some ==> got->Some_0.currency == "USD"@ && got->Some_0.entry
                == entry->Some_0
            &&& got is Some && entry->Some_0.active(at) ==> got->Some_0.prices == rules::tier_of(
                entry->Some_0,
                at,
                input_tokens,
            ).prices
        }),
{
}

/// A rule that refuses a price leaves the call without one, whatever the other
/// layers hold.
pub proof fn refused_call_has_no_card(
    layers: PriceLayers,
    source_key: Seq<char>,
    model: Seq<char>,
    at: Instant,
    input_tokens: Option<u64>,
)
    requires
        config_says(layers.config@.providers, source_key, model, at, layers.names@) is NoPrice,
    ensures
        entry_in_effect(layers, source_key, model, at, input_tokens) is None,
{
}

/// A vendor's price is known by the vendor, and by the tariff in force where
/// there is one, behind a colon.
pub proof fn vendors_price_is_known_by_vendor_and_tariff(vendor: VendorView)
    ensures
        vendor.card.tier.tariff is None ==> vendor_identity(vendor) == vendor.vendor,
        vendor.card.tier.tariff matches Some(tariff) ==> text::begins(
            vendor_identity(vendor),
            vendor.vendor,
        ) && text::ends(vendor_identity(vendor), tariff) && vendor_identity(vendor).len()
            == vendor.vendor.len() + 1 + tariff.len() && vendor_identity(vendor)[vendor.vendor.len() as int]
            == ':',
{
    if let Some(tariff) = vendor.card.tier.tariff {
        reveal_strlit(":");
        text::parts_are_found_again(vendor.vendor, ":"@ + tariff);
        text::parts_are_found_again(vendor.vendor + ":"@, tariff);
        assert(vendor_identity(vendor) =~= vendor.vendor + (":"@ + tariff));
    }
}

/// A section that names no currency is in dollars.
pub proof fn section_without_a_currency_is_in_dollars(code: Seq<char>)
    ensures
        currency_or_usd(None) == "USD"@,
        currency_or_usd(Some(code)) == code,
{
}

/// A call is priced by the user's own rule where one is in effect, by nothing
/// where that rule refuses, and otherwise by the first of the vendor files, the
/// sheets and the catalog that has a price.
pub proof fn first_layer_with_a_price_wins(
    layers: PriceLayers,
    source_key: Seq<char>,
    model: Seq<char>,
    at: Instant,
    input_tokens: Option<u64>,
)
    ensures
        ({
            let said = config_says(
                layers.config@.providers,
                source_key,
                model,
                at,
                layers.names@,
            );
            let got = entry_in_effect(layers, source_key, model, at, input_tokens);
            let own = config_card(layers, source_key, model, at, input_tokens);
            let vendor = vendor_card_from(layers, source_key, model, at, input_tokens, 0);
            let sheet = sheet_card(layers, source_key, model, at, input_tokens);
            &&& said is NoPrice ==> got is None
            &&& said is Hit ==> own is Some && got == Some(effective(own->Some_0))
            &&& (said is Absent || said is OutOfEffect) && vendor is Some ==> got == Some(
                effective(vendor->Some_0.card),
            )
            &&& (said is Absent || said is OutOfEffect) && vendor is None && sheet is Some ==> got
                == Some(effective(sheet->Some_0.card))
            &&& (said is Absent || said is OutOfEffect) && vendor is None && sheet is None ==> got
                == dev_entry(layers, source_key, model, at, input_tokens)
        }),
{
}

/// The card in effect has the entry, the prices and the currency of the card
/// that was resolved.
pub proof fn card_in_effect_is_the_resolved_one(card: ResolvedView)
    ensures
        effective(card).entry == card.entry,
        effective(card).prices == card.tier.prices,
        effective(card).currency == card.currency,
{
}

/// Routes are compared by a request of twenty-five thousand tokens in and five
/// thousand out.
pub proof fn reference_request_has_its_size()
    ensures
        CHEAPNESS_REFERENCE_INPUT_TOKENS == 25 * 1000,
        CHEAPNESS_REFERENCE_OUTPUT_TOKENS == 5 * 1000,
{
}

} // verus!
