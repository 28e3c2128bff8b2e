//! Which rate card prices one API call, at the call's own instant.
//!
//! A route picker wants one scalar; billing needs the rates themselves with
//! their currency, and an honest "cannot price this" where the user's own rule
//! does not cover the call. So the answer is not an `Option`: a price that is
//! configured but not available must not be replaced by a generic estimate.

use crate::clock::Instant;
use crate::currency::Currency;
use crate::entry::RuleOutOfEffect;
use crate::model;
use crate::price_layers;
use crate::price_layers::{ConfigPrice, ConfigPriceView, PriceLayers, ResolvedView};
use crate::rate::Price;
use crate::rules::Prices;
use vstd::prelude::*;

verus! {

/// Rates per million tokens as the layer that produced them states them.
#[derive(Debug)]
pub struct CallRateCard {
    /// Fresh (uncached) input rate.
    pub input_per_mtok: Price,
    pub output_per_mtok: Price,
    /// Cache-read rate when the card states one.
    pub cache_read_per_mtok: Option<Price>,
    /// Cache-write rate when the user's own card states one, directly or
    /// through the tariff it selects. One that only arrived from the next layer
    /// is absent here: it must not replace the billing premium.
    pub cache_write_per_mtok: Option<Price>,
    /// The currency of the rates, never inherited across layers.
    pub currency: Currency,
}

#[verifier::ext_equal]
pub struct CallRateView {
    pub input_per_mtok: Price,
    pub output_per_mtok: Price,
    pub cache_read_per_mtok: Option<Price>,
    pub cache_write_per_mtok: Option<Price>,
    pub currency: Seq<char>,
}

impl View for CallRateCard {
    type V = CallRateView;

    open spec fn view(&self) -> CallRateView {
        CallRateView {
            input_per_mtok: self.input_per_mtok,
            output_per_mtok: self.output_per_mtok,
            cache_read_per_mtok: self.cache_read_per_mtok,
            cache_write_per_mtok: self.cache_write_per_mtok,
            currency: self.currency@,
        }
    }
}

/// The card that rates amount to; both directions are needed.
pub open spec fn card_of(prices: Prices, cache_write: Option<Price>, currency: Seq<char>) -> Option<
    CallRateView,
> {
    if prices.input is Some && prices.output is Some {
        Some(
            CallRateView {
                input_per_mtok: prices.input->Some_0,
                output_per_mtok: prices.output->Some_0,
                cache_read_per_mtok: prices.cache_read,
                cache_write_per_mtok: cache_write,
                currency,
            },
        )
    } else {
        None
    }
}

impl CallRateCard {
    /// The card for resolved rates, or `None` when they cannot price a call.
    ///
    /// The cache-write rate is passed in: only one that the config layer states
    /// may replace the billing premium, and `prices` are those after the merge
    /// with the next layer.
    pub fn from_entry(
        prices: &Prices,
        cache_write_per_mtok: Option<Price>,
        currency: Currency,
    ) -> (r: Option<CallRateCard>)
        ensures
            model::opt_view(r) == card_of(*prices, cache_write_per_mtok, currency@),
    {
        match (prices.input, prices.output) {
            (Some(input_per_mtok), Some(output_per_mtok)) => Some(
                CallRateCard {
                    input_per_mtok,
                    output_per_mtok,
                    cache_read_per_mtok: prices.cache_read,
                    cache_write_per_mtok,
                    currency,
                },
            ),
            _ => None,
        }
    }
}

/// What the `[pricing.providers]` layer says about one call.
#[derive(Debug)]
pub enum ConfigCallRates {
    /// A hand-written card prices this call.
    Priced(CallRateCard),
    /// A hand-written card claims this pair but cannot price the call. Callers
    /// show "unknown" and substitute no estimate.
    ConfiguredWithoutPrice,
    /// A rule claims this pair but is out of effect: the next layer prices the
    /// call, and that price is labelled.
    OutOfEffect(RuleOutOfEffect),
    /// No card claims this pair.
    Absent,
}

pub enum CallRatesView {
    Priced(CallRateView),
    ConfiguredWithoutPrice,
    OutOfEffect(RuleOutOfEffect),
    Absent,
}

impl View for ConfigCallRates {
    type V = CallRatesView;

    open spec fn view(&self) -> CallRatesView {
        match self {
            ConfigCallRates::Priced(card) => CallRatesView::Priced(card@),
            ConfigCallRates::ConfiguredWithoutPrice => CallRatesView::ConfiguredWithoutPrice,
            ConfigCallRates::OutOfEffect(reason) => CallRatesView::OutOfEffect(*reason),
            ConfigCallRates::Absent => CallRatesView::Absent,
        }
    }
}

/// The answer that a resolved card amounts to: one that lost to the next layer
/// is not this layer's, and one that lacks a direction prices nothing.
pub open spec fn rates_of_card(card: ResolvedView) -> CallRatesView {
    if !card.from_config {
        CallRatesView::Absent
    } else {
        match card_of(card.tier.prices, card.config_cache_write, card.currency) {
            Some(rates) => CallRatesView::Priced(rates),
            None => CallRatesView::ConfiguredWithoutPrice,
        }
    }
}

/// The config layer's answer for one call.
pub open spec fn call_rates(
    layers: PriceLayers,
    provider: Seq<char>,
    model: Seq<char>,
    at: Instant,
    input_tokens: Option<u64>,
) -> CallRatesView {
    match price_layers::config_says(layers.config@.providers, provider, model, at, layers.names@) {
        ConfigPriceView::NoPrice => CallRatesView::ConfiguredWithoutPrice,
        ConfigPriceView::OutOfEffect(reason) => CallRatesView::OutOfEffect(reason),
        ConfigPriceView::Absent => CallRatesView::Absent,
        ConfigPriceView::Hit(entry, currency) => rates_of_card(
            price_layers::resolved(
                entry,
                currency,
                price_layers::next_card(layers, provider, model, at),
                at,
                input_tokens,
            ),
        ),
    }
}

/// The config-authoritative answer for one call.
///
/// `provider` is the activity source key of the billing path, `at` the call's
/// own instant, and `input_tokens` its reported input size; without one the
/// call is priced at the base tier.
pub fn config_call_rates(
    layers: &PriceLayers,
    provider: &str,
    model: &str,
    at: Instant,
    input_tokens: Option<u64>,
) -> (r: ConfigCallRates)
    ensures
        r@ == call_rates(*layers, provider@, model@, at, input_tokens),
{
    match price_layers::config_price(&layers.config, provider, model, at, &layers.names) {
        ConfigPrice::NoPrice => ConfigCallRates::ConfiguredWithoutPrice,
        ConfigPrice::OutOfEffect(reason) => ConfigCallRates::OutOfEffect(reason),
        ConfigPrice::Absent => ConfigCallRates::Absent,
        ConfigPrice::Hit(entry, currency) => {
            let fallback = price_layers::next_fallback(layers, provider, model, at);
            let card = price_layers::resolve_card(entry, currency, fallback, at, input_tokens);
            if !card.from_config {
                return ConfigCallRates::Absent;
            }
            match CallRateCard::from_entry(
                &card.tier.prices,
                card.config_cache_write,
                card.currency,
            ) {
                Some(rates) => ConfigCallRates::Priced(rates),
                None => ConfigCallRates::ConfiguredWithoutPrice,
            }
        },
    }
}

/// What is billed is what is shown: a call that the config layer prices has the
/// effective card's rates and currency.
pub proof fn billed_rates_are_the_effective_ones(
    layers: PriceLayers,
    provider: Seq<char>,
    model: Seq<char>,
    at: Instant,
    input_tokens: Option<u64>,
)
    requires
        call_rates(layers, provider, model, at, input_tokens) is Priced,
    ensures
        ({
            let rates = call_rates(layers, provider, model, at, input_tokens)->Priced_0;
            let card = price_layers::entry_in_effect(layers, provider, model, at, input_tokens);
            &&& card is Some
            &&& card->Some_0.prices.input == Some(rates.input_per_mtok)
            &&& card->Some_0.prices.output == Some(rates.output_per_mtok)
            &&& card->Some_0.prices.cache_read == rates.cache_read_per_mtok
            &&& card->Some_0.currency == rates.currency
        }),
{
}

/// A resolved card that is this layer's prices the call where both directions are
/// known, each by its own rate, in the card's currency; the cache-write rate is
/// the one that the card itself states. Without both directions the call has no
/// price, and a card that lost to the next layer is no answer of this one.
pub proof fn card_bills_its_own_rates(card: ResolvedView)
    ensures
        ({
            let got = rates_of_card(card);
            let prices = card.tier.prices;
            let whole = prices.input is Some && prices.output is Some;
            &&& !card.from_config ==> got is Absent
            &&& card.from_config && !whole ==> got is ConfiguredWithoutPrice
            &&& card.from_config && whole ==> {
                &&& got is Priced
                &&& Some(got->Priced_0.input_per_mtok) == prices.input
                &&& Some(got->Priced_0.output_per_mtok) == prices.output
                &&& got->Priced_0.cache_read_per_mtok == prices.cache_read
                &&& got->Priced_0.cache_write_per_mtok == card.config_cache_write
                &&& got->Priced_0.currency == card.currency
            }
        }),
{
}

/// The layer answers for a call as the config says of the pair: a rule in effect
/// by its resolved card, a refusal by none, a rule out of effect with its reason,
/// and without a rule not at all.
pub proof fn call_is_answered_as_the_config_says(
    layers: PriceLayers,
    provider: Seq<char>,
    model: Seq<char>,
    at: Instant,
    input_tokens: Option<u64>,
)
    ensures
        ({
            let says = price_layers::config_says(
                layers.config@.providers,
                provider,
                model,
                at,
                layers.names@,
            );
            let got = call_rates(layers, provider, model, at, input_tokens);
            &&& says is Absent ==> got is Absent
            &&& says is NoPrice ==> got is ConfiguredWithoutPrice
            &&& says is OutOfEffect ==> got == CallRatesView::OutOfEffect(says->OutOfEffect_0)
            &&& says is Hit ==> got == rates_of_card(
                price_layers::resolved(
                    says->Hit_0,
                    says->Hit_1,
                    price_layers::next_card(layers, provider, model, at),
                    at,
                    input_tokens,
                ),
            )
        }),
{
}

} // verus!
