//! What a route costs: the unified resolver over every layer that can price a
//! provider and model.
//!
//! In order: the user's own cards, the vendors' price files, the extra sheets,
//! the curated tables, OpenRouter's caches for OpenRouter routes, and the
//! models.dev catalog. The curated tables, OpenRouter and the subscription
//! plans are consulted by the caller, which hands their estimates in as values
//! of a type `E` of its own; which of them counts is decided here.

use crate::call_rates;
use crate::call_rates::{CallRatesView, ConfigCallRates};
use crate::clock::Instant;
use crate::currency;
use crate::currency::Currency;
use crate::fx;
use crate::fx::{Conversion, FxTable, FxView};
use crate::model;
use crate::price_layers;
use crate::price_layers::PriceLayers;
use crate::providers::{NamesView, VendorNames};
use crate::rate::{Price, Rate};
use crate::rules::Prices;
use crate::text;
use vstd::prelude::*;

verus! {

/// Where a metered price comes from.
#[derive(Debug, Clone, Copy, PartialEq, Eq, Structural)]
pub enum RouteCostSource {
    /// A hand-written `[pricing.providers]` card.
    ConfigPriceSheet,
    /// A vendor's price file or an extra price sheet.
    ExtraPriceSource,
    /// The models.dev catalog.
    ModelsDevCatalog,
}

/// How far a metered price can be relied on.
#[derive(Debug, Clone, Copy, PartialEq, Eq, Structural)]
pub enum RouteCostConfidence {
    Exact,
    High,
}

/// Rates per million tokens that a route is metered by.
#[derive(Debug)]
pub struct RouteEstimate {
    pub source: RouteCostSource,
    pub confidence: RouteCostConfidence,
    pub input: Price,
    pub output: Price,
    pub cache_read: Option<Price>,
    pub note: String,
    pub currency: Currency,
}

#[verifier::ext_equal]
pub struct EstimateView {
    pub source: RouteCostSource,
    pub confidence: RouteCostConfidence,
    pub input: Price,
    pub output: Price,
    pub cache_read: Option<Price>,
    pub note: Seq<char>,
    pub currency: Seq<char>,
}

impl View for RouteEstimate {
    type V = EstimateView;

    open spec fn view(&self) -> EstimateView {
        EstimateView {
            source: self.source,
            confidence: self.confidence,
            input: self.input,
            output: self.output,
            cache_read: self.cache_read,
            note: self.note@,
            currency: self.currency@,
        }
    }
}

/// The price of a route: one of this library's layers, or an estimate that was
/// handed in.
#[derive(Debug)]
pub enum RoutePrice<E> {
    Metered(RouteEstimate),
    Given(E),
}

pub enum RoutePriceView<E> {
    Metered(EstimateView),
    Given(E),
}

impl<E> View for RoutePrice<E> {
    type V = RoutePriceView<E>;

    open spec fn view(&self) -> RoutePriceView<E> {
        match self {
            RoutePrice::Metered(estimate) => RoutePriceView::Metered(estimate@),
            RoutePrice::Given(estimate) => RoutePriceView::Given(*estimate),
        }
    }
}

/// What the hand-written layer says about a route.
#[derive(Debug)]
pub enum ConfigPriceEstimate {
    /// A config card prices the route.
    Priced(RouteEstimate),
    /// The user's own rule claims the pair but refuses to price it. No other
    /// layer may substitute an estimate.
    Refuse,
    /// No config card claims the pair, or its rule is out of effect and leaves
    /// the call to the next layer.
    Absent,
}

pub enum ConfigEstimateView {
    Priced(EstimateView),
    Refuse,
    Absent,
}

impl View for ConfigPriceEstimate {
    type V = ConfigEstimateView;

    open spec fn view(&self) -> ConfigEstimateView {
        match self {
            ConfigPriceEstimate::Priced(estimate) => ConfigEstimateView::Priced(estimate@),
            ConfigPriceEstimate::Refuse => ConfigEstimateView::Refuse,
            ConfigPriceEstimate::Absent => ConfigEstimateView::Absent,
        }
    }
}

/// The hand-written layer's estimate of a route.
pub open spec fn config_estimate(
    layers: PriceLayers,
    source_key: Seq<char>,
    model: Seq<char>,
    at: Instant,
) -> ConfigEstimateView {
    match call_rates::call_rates(layers, source_key, model, at, None) {
        CallRatesView::Priced(card) => ConfigEstimateView::Priced(
            EstimateView {
                source: RouteCostSource::ConfigPriceSheet,
                confidence: RouteCostConfidence::Exact,
                input: card.input_per_mtok,
                output: card.output_per_mtok,
                cache_read: card.cache_read_per_mtok,
                note: "config [pricing.providers] card in "@ + card.currency,
                currency: card.currency,
            },
        ),
        CallRatesView::ConfiguredWithoutPrice => ConfigEstimateView::Refuse,
        _ => ConfigEstimateView::Absent,
    }
}

/// Build a route estimate straight from a hand-written card.
///
/// `at` gates the card's validity and selects its tariff. The answer has three
/// values and asks the same source as billing, so that a picker cannot show an
/// estimate for a call that billing refuses to price.
pub fn config_price_estimate(layers: &PriceLayers, source_key: &str, model: &str, at: Instant) -> (r:
    ConfigPriceEstimate)
    ensures
        r@ == config_estimate(*layers, source_key@, model@, at),
{
    match call_rates::config_call_rates(layers, source_key, model, at, None) {
        ConfigCallRates::Priced(card) => {
            let note = text::join2("config [pricing.providers] card in ", card.currency.as_str());
            ConfigPriceEstimate::Priced(
                RouteEstimate {
                    source: RouteCostSource::ConfigPriceSheet,
                    confidence: RouteCostConfidence::Exact,
                    input: card.input_per_mtok,
                    output: card.output_per_mtok,
                    cache_read: card.cache_read_per_mtok,
                    note,
                    currency: card.currency,
                },
            )
        },
        ConfigCallRates::ConfiguredWithoutPrice => ConfigPriceEstimate::Refuse,
        ConfigCallRates::OutOfEffect(_) => ConfigPriceEstimate::Absent,
        ConfigCallRates::Absent => ConfigPriceEstimate::Absent,
    }
}

/// The estimate that prices amount to; both directions are needed.
pub open spec fn estimate_of(
    source: RouteCostSource,
    confidence: RouteCostConfidence,
    prices: Prices,
    note: Seq<char>,
    currency: Seq<char>,
) -> Option<EstimateView> {
    if prices.input is Some && prices.output is Some {
        Some(
            EstimateView {
                source,
                confidence,
                input: prices.input->Some_0,
                output: prices.output->Some_0,
                cache_read: prices.cache_read,
                note,
                currency,
            },
        )
    } else {
        None
    }
}

fn estimate_from(
    source: RouteCostSource,
    confidence: RouteCostConfidence,
    prices: &Prices,
    note: String,
    currency: Currency,
) -> (r: Option<RouteEstimate>)
    ensures
        model::opt_view(r) == estimate_of(source, confidence, *prices, note@, currency@),
{
    match (prices.input, prices.output) {
        (Some(input), Some(output)) => Some(
            RouteEstimate {
                source,
                confidence,
                input,
                output,
                cache_read: prices.cache_read,
                note,
                currency,
            },
        ),
        _ => None,
    }
}

/// A vendor file's estimate of a route.
pub open spec fn vendor_estimate(
    layers: PriceLayers,
    source_key: Seq<char>,
    model: Seq<char>,
    at: Instant,
    input_tokens: Option<u64>,
) -> Option<EstimateView> {
    match price_layers::vendor_card_from(layers, source_key, model, at, input_tokens, 0) {
        Some(vendor) => estimate_of(
            RouteCostSource::ExtraPriceSource,
            RouteCostConfidence::Exact,
            vendor.card.tier.prices,
            "pricing.providers `"@ + vendor.vendor + "` file in "@ + vendor.card.currency,
            vendor.card.currency,
        ),
        None => None,
    }
}

/// Build a route estimate from a vendor's price file, which sits below the
/// hand-written cards and above every other layer.
pub fn vendor_file_price_estimate(
    layers: &PriceLayers,
    source_key: &str,
    model: &str,
    at: Instant,
    input_tokens: Option<u64>,
) -> (r: Option<RouteEstimate>)
    ensures
        model::opt_view(r) == vendor_estimate(*layers, source_key@, model@, at, input_tokens),
{
    match price_layers::vendor_file_card_at_size(layers, source_key, model, at, input_tokens) {
        Some(vendor) => {
            let note = text::join4(
                "pricing.providers `",
                vendor.vendor.as_str(),
                "` file in ",
                vendor.card.currency.as_str(),
            );
            estimate_from(
                RouteCostSource::ExtraPriceSource,
                RouteCostConfidence::Exact,
                &vendor.card.tier.prices,
                note,
                vendor.card.currency,
            )
        },
        None => None,
    }
}

/// A sheet's estimate of a route. A card that lost to the next layer is not the
/// sheet's.
pub open spec fn sheet_estimate(
    layers: PriceLayers,
    source_key: Seq<char>,
    model: Seq<char>,
    at: Instant,
    input_tokens: Option<u64>,
) -> Option<EstimateView> {
    match price_layers::sheet_card(layers, source_key, model, at, input_tokens) {
        Some(sheet) => if sheet.card.from_config {
            estimate_of(
                RouteCostSource::ExtraPriceSource,
                RouteCostConfidence::Exact,
                sheet.card.tier.prices,
                "pricing source `"@ + sheet.source_id + "` in "@ + sheet.card.currency,
                sheet.card.currency,
            )
        } else {
            None
        },
        None => None,
    }
}

/// Build a route estimate from an extra price sheet.
pub fn source_price_estimate(
    layers: &PriceLayers,
    source_key: &str,
    model: &str,
    at: Instant,
    input_tokens: Option<u64>,
) -> (r: Option<RouteEstimate>)
    ensures
        model::opt_view(r) == sheet_estimate(*layers, source_key@, model@, at, input_tokens),
{
    match price_layers::source_card_at_size(layers, source_key, model, at, input_tokens) {
        Some(sheet) => if sheet.card.from_config {
            let note = text::join4(
                "pricing source `",
                sheet.source_id.as_str(),
                "` in ",
                sheet.card.currency.as_str(),
            );
            estimate_from(
                RouteCostSource::ExtraPriceSource,
                RouteCostConfidence::Exact,
                &sheet.card.tier.prices,
                note,
                sheet.card.currency,
            )
        } else {
            None
        },
        None => None,
    }
}

/// The catalog's estimate of a route.
pub open spec fn catalog_estimate(
    layers: PriceLayers,
    source_key: Seq<char>,
    model: Seq<char>,
    at: Instant,
    input_tokens: Option<u64>,
) -> Option<EstimateView> {
    match price_layers::dev_entry(layers, source_key, model, at, input_tokens) {
        Some(card) => estimate_of(
            RouteCostSource::ModelsDevCatalog,
            RouteCostConfidence::High,
            card.prices,
            "models.dev pricing catalog"@,
            card.currency,
        ),
        None => None,
    }
}

fn catalog_price_estimate(
    layers: &PriceLayers,
    source_key: &str,
    model: &str,
    at: Instant,
    input_tokens: Option<u64>,
) -> (r: Option<RouteEstimate>)
    ensures
        model::opt_view(r) == catalog_estimate(*layers, source_key@, model@, at, input_tokens),
{
    match price_layers::models_dev_entry(layers, source_key, model, at, input_tokens) {
        Some(card) => estimate_from(
            RouteCostSource::ModelsDevCatalog,
            RouteCostConfidence::High,
            &card.prices,
            text::owned("models.dev pricing catalog"),
            card.currency,
        ),
        None => None,
    }
}

/// What the tables and caches of the caller say about one model.
#[derive(Debug)]
pub struct GivenEstimates<E> {
    /// The curated table of Anthropic's API prices.
    pub anthropic: Option<E>,
    /// The curated table of OpenAI's API prices.
    pub openai: Option<E>,
    /// OpenRouter's own caches, for its automatic route.
    pub openrouter: Option<E>,
}

/// The estimate that counts for a source key: a table only for its own API
/// keys, and OpenRouter's caches only for OpenRouter.
pub open spec fn given_for<E>(
    given: GivenEstimates<E>,
    source_key: Seq<char>,
    names: NamesView,
) -> Option<E> {
    if source_key == names.api_key() {
        given.anthropic
    } else if source_key == "openai:api-key"@ {
        given.openai
    } else if source_key == "openrouter"@ {
        given.openrouter
    } else {
        None
    }
}

fn pick_given<E>(given: GivenEstimates<E>, source_key: &str, names: &VendorNames) -> (r: Option<E>)
    ensures
        r == given_for(given, source_key@, names@),
{
    let api_key = names.api_key();
    if text::same(source_key, api_key.as_str()) {
        given.anthropic
    } else if text::same(source_key, "openai:api-key") {
        given.openai
    } else if text::same(source_key, "openrouter") {
        given.openrouter
    } else {
        None
    }
}

/// The price of a route without the hand-written layer.
pub open spec fn derived_price<E>(
    layers: PriceLayers,
    source_key: Seq<char>,
    model: Seq<char>,
    at: Instant,
    input_tokens: Option<u64>,
    given: GivenEstimates<E>,
) -> Option<RoutePriceView<E>> {
    match vendor_estimate(layers, source_key, model, at, input_tokens) {
        Some(estimate) => Some(RoutePriceView::Metered(estimate)),
        None => match sheet_estimate(layers, source_key, model, at, input_tokens) {
            Some(estimate) => Some(RoutePriceView::Metered(estimate)),
            None => match given_for(given, source_key, layers.names@) {
                Some(estimate) => Some(RoutePriceView::Given(estimate)),
                None => match catalog_estimate(layers, source_key, model, at, input_tokens) {
                    Some(estimate) => Some(RoutePriceView::Metered(estimate)),
                    None => None,
                },
            },
        },
    }
}

/// The layers below the hand-written cards, at the call's own instant and with
/// its reported input size.
///
/// Billing resolves the hand-written layer itself; keeping it out of this
/// function means that a config rate can never be reported as a catalog rate.
pub fn derived_pricing_for_source_at_size<E>(
    layers: &PriceLayers,
    source_key: &str,
    model: &str,
    at: Instant,
    input_tokens: Option<u64>,
    given: GivenEstimates<E>,
) -> (r: Option<RoutePrice<E>>)
    ensures
        model::opt_view(r) == derived_price(
            *layers,
            source_key@,
            model@,
            at,
            input_tokens,
            given,
        ),
{
    if let Some(estimate) = vendor_file_price_estimate(
        layers,
        source_key,
        model,
        at,
        input_tokens,
    ) {
        return Some(RoutePrice::Metered(estimate));
    }
    if let Some(estimate) = source_price_estimate(layers, source_key, model, at, input_tokens) {
        return Some(RoutePrice::Metered(estimate));
    }
    if let Some(estimate) = pick_given(given, source_key, &layers.names) {
        return Some(RoutePrice::Given(estimate));
    }
    match catalog_price_estimate(layers, source_key, model, at, input_tokens) {
        Some(estimate) => Some(RoutePrice::Metered(estimate)),
        None => None,
    }
}

/// The price of a route over every layer.
pub open spec fn metered_price<E>(
    layers: PriceLayers,
    source_key: Seq<char>,
    model: Seq<char>,
    at: Instant,
    given: GivenEstimates<E>,
) -> Option<RoutePriceView<E>> {
    match config_estimate(layers, source_key, model, at) {
        ConfigEstimateView::Priced(estimate) => Some(RoutePriceView::Metered(estimate)),
        ConfigEstimateView::Refuse => None,
        ConfigEstimateView::Absent => derived_price(layers, source_key, model, at, None, given),
    }
}

/// Unified metered pricing for any provider and model at an instant. `None`
/// means that nothing can price the route, or that the user's own rule refuses
/// to: it never means "free".
pub fn metered_pricing_for_source_at<E>(
    layers: &PriceLayers,
    source_key: &str,
    model: &str,
    at: Instant,
    given: GivenEstimates<E>,
) -> (r: Option<RoutePrice<E>>)
    ensures
        model::opt_view(r) == metered_price(*layers, source_key@, model@, at, given),
{
    match config_price_estimate(layers, source_key, model, at) {
        ConfigPriceEstimate::Priced(estimate) => Some(RoutePrice::Metered(estimate)),
        ConfigPriceEstimate::Refuse => None,
        ConfigPriceEstimate::Absent => derived_pricing_for_source_at_size(
            layers,
            source_key,
            model,
            at,
            None,
            given,
        ),
    }
}

/// A rule that refuses a price refuses the route, whatever any other layer
/// offers.
pub proof fn refusal_is_not_replaced<E>(
    layers: PriceLayers,
    source_key: Seq<char>,
    model: Seq<char>,
    at: Instant,
    given: GivenEstimates<E>,
)
    requires
        call_rates::call_rates(layers, source_key, model, at, None) is ConfiguredWithoutPrice,
    ensures
        metered_price(layers, source_key, model, at, given) is None,
{
}

/// A hand-written card that prices the route outranks the tables, the caches
/// and the catalog.
pub proof fn config_card_prices_the_route<E>(
    layers: PriceLayers,
    source_key: Seq<char>,
    model: Seq<char>,
    at: Instant,
    one: GivenEstimates<E>,
    other: GivenEstimates<E>,
)
    requires
        call_rates::call_rates(layers, source_key, model, at, None) is Priced,
    ensures
        metered_price(layers, source_key, model, at, one) == metered_price(
            layers,
            source_key,
            model,
            at,
            other,
        ),
        ({
            let price = metered_price(layers, source_key, model, at, one);
            &&& price is Some
            &&& price->Some_0 is Metered
            &&& price->Some_0->Metered_0.source == RouteCostSource::ConfigPriceSheet
        }),
{
}

/// The derived layers never report a hand-written card.
pub proof fn derived_price_is_not_a_config_card<E>(
    layers: PriceLayers,
    source_key: Seq<char>,
    model: Seq<char>,
    at: Instant,
    input_tokens: Option<u64>,
    given: GivenEstimates<E>,
)
    ensures
        match derived_price(layers, source_key, model, at, input_tokens, given) {
            Some(RoutePriceView::Metered(estimate)) => estimate.source
                != RouteCostSource::ConfigPriceSheet,
            _ => true,
        },
{
}

/// A price of the catalog is always in USD.
pub proof fn catalog_price_is_in_usd<E>(
    layers: PriceLayers,
    source_key: Seq<char>,
    model: Seq<char>,
    at: Instant,
    input_tokens: Option<u64>,
    given: GivenEstimates<E>,
)
    ensures
        match derived_price(layers, source_key, model, at, input_tokens, given) {
            Some(RoutePriceView::Metered(estimate)) => estimate.source
                == RouteCostSource::ModelsDevCatalog ==> estimate.currency == currency::usd_code(),
            _ => true,
        },
{
}

/// Which of OpenRouter's prices counts for a route, and the note that goes with
/// it.
#[derive(Debug, PartialEq, Eq)]
pub enum OpenRouterChoice {
    /// The endpoint with this index in the cache.
    Endpoint(usize, String),
    /// The model catalog's own price.
    Catalog(String),
}

pub enum ChoiceView {
    Endpoint(int, Seq<char>),
    Catalog(Seq<char>),
}

impl View for OpenRouterChoice {
    type V = ChoiceView;

    open spec fn view(&self) -> ChoiceView {
        match self {
            OpenRouterChoice::Endpoint(i, note) => ChoiceView::Endpoint(*i as int, note@),
            OpenRouterChoice::Catalog(note) => ChoiceView::Catalog(note@),
        }
    }
}

/// The index of the first name from `from` on that is `name`.
pub open spec fn name_from(names: Seq<Seq<char>>, name: Seq<char>, from: int) -> Option<int>
    decreases names.len() - from,
{
    if from < 0 || from >= names.len() {
        None
    } else if names[from] == name {
        Some(from)
    } else {
        name_from(names, name, from + 1)
    }
}

/// The choice for a provider, which a pin in the model id overrides: the
/// automatic route takes the first endpoint, a named one its own, and without
/// either the catalog counts.
pub open spec fn openrouter_choice(
    provider: Seq<char>,
    pin: Option<Seq<char>>,
    endpoints: Option<Seq<Seq<char>>>,
) -> ChoiceView {
    let name = match pin {
        Some(pin) => pin,
        None => provider,
    };
    match endpoints {
        None => ChoiceView::Catalog("OpenRouter model catalog pricing"@),
        Some(names) => if name == "auto"@ && names.len() > 0 {
            ChoiceView::Endpoint(0, "OpenRouter auto route currently prefers "@ + names[0])
        } else {
            match name_from(names, name, 0) {
                Some(i) => ChoiceView::Endpoint(i, "OpenRouter endpoint pricing for "@ + name),
                None => ChoiceView::Catalog("OpenRouter model catalog pricing"@),
            }
        },
    }
}

/// Choose the OpenRouter price of a route from the provider names of the cached
/// endpoints, where there is a cache.
pub fn openrouter_route_pricing(
    provider: &str,
    pin: Option<&str>,
    endpoints: &Option<Vec<String>>,
) -> (r: OpenRouterChoice)
    ensures
        r@ == openrouter_choice(
            provider@,
            match pin {
                Some(pin) => Some(pin@),
                None => None,
            },
            match *endpoints {
                Some(names) => Some(model::seq_view(names@)),
                None => None,
            },
        ),
{
    let name: &str = match pin {
        Some(pin) => pin,
        None => provider,
    };
    if let Some(names) = endpoints {
        let ghost all = model::seq_view(names@);
        if text::same(name, "auto") && names.len() > 0 {
            assert(all[0] == names@[0]@);
            return OpenRouterChoice::Endpoint(
                0,
                text::join2("OpenRouter auto route currently prefers ", names[0].as_str()),
            );
        }
        let mut i: usize = 0;
        while i < names.len()
            invariant
                i <= names@.len(),
                all == model::seq_view(names@),
                name_from(all, name@, 0) == name_from(all, name@, i as int),
                name@ == match pin {
                    Some(pin) => pin@,
                    None => provider@,
                },
                *endpoints == Some(*names),
                !(name@ == "auto"@ && names@.len() > 0),
            decreases names.len() - i,
        {
            assert(all[i as int] == names@[i as int]@);
            if text::same(names[i].as_str(), name) {
                return OpenRouterChoice::Endpoint(
                    i,
                    text::join2("OpenRouter endpoint pricing for ", name),
                );
            }
            i += 1;
        }
    }
    OpenRouterChoice::Catalog(text::owned("OpenRouter model catalog pricing"))
}

/// The two vendors whose routes bill either by subscription or by API key.
#[derive(Debug, Clone, Copy, PartialEq, Eq, Structural)]
pub enum DualAuthProvider {
    Anthropic,
    OpenAI,
}

#[derive(Debug, Clone, Copy, PartialEq, Eq, Structural)]
pub enum AuthMode {
    Oauth,
    ApiKey,
}

/// A route of a vendor that has both.
#[derive(Debug, Clone, Copy, PartialEq, Eq, Structural)]
pub struct AuthRoute {
    pub provider: DualAuthProvider,
    pub mode: AuthMode,
}

/// How a route is priced.
#[derive(Debug, PartialEq, Eq)]
pub enum RoutePlan {
    /// Anthropic's subscription plan.
    AnthropicPlan,
    /// OpenAI's subscription plan.
    OpenAiPlan,
    /// Copilot's plan.
    CopilotPlan,
    /// Metered under a source key.
    Metered(String),
    /// Metered under OpenAI's API key, or its plan where nothing meters it and
    /// the user's own rule does not refuse to.
    MeteredOrOpenAiPlan,
    /// OpenRouter with a model id.
    OpenRouter(String),
    /// Not priced.
    Unpriced,
}

pub enum PlanView {
    AnthropicPlan,
    OpenAiPlan,
    CopilotPlan,
    Metered(Seq<char>),
    MeteredOrOpenAiPlan,
    OpenRouter(Seq<char>),
    Unpriced,
}

impl View for RoutePlan {
    type V = PlanView;

    open spec fn view(&self) -> PlanView {
        match self {
            RoutePlan::AnthropicPlan => PlanView::AnthropicPlan,
            RoutePlan::OpenAiPlan => PlanView::OpenAiPlan,
            RoutePlan::CopilotPlan => PlanView::CopilotPlan,
            RoutePlan::Metered(key) => PlanView::Metered(key@),
            RoutePlan::MeteredOrOpenAiPlan => PlanView::MeteredOrOpenAiPlan,
            RoutePlan::OpenRouter(id) => PlanView::OpenRouter(id@),
            RoutePlan::Unpriced => PlanView::Unpriced,
        }
    }
}

/// The id under which OpenRouter knows a model: one without a vendor gets the
/// vendor that makes it.
pub open spec fn openrouter_id(model: Seq<char>, is_anthropic: bool, is_openai: bool) -> Seq<char> {
    if model.contains('/') {
        model
    } else if is_anthropic {
        "anthropic/"@ + model
    } else if is_openai {
        "openai/"@ + model
    } else {
        model
    }
}

/// How a route of a vendor with both kinds of billing is priced. An API key of
/// Anthropic counts only on a route that is labelled so, and a subscription
/// route of OpenAI bills per token when only an API key is configured.
pub open spec fn dual_plan(
    route: AuthRoute,
    provider: Seq<char>,
    openai_mode: AuthMode,
    names: NamesView,
) -> PlanView {
    match (route.provider, route.mode) {
        (DualAuthProvider::Anthropic, AuthMode::Oauth) => PlanView::AnthropicPlan,
        (DualAuthProvider::Anthropic, AuthMode::ApiKey) => if provider == "Anthropic"@ {
            PlanView::Metered(names.api_key())
        } else {
            PlanView::Unpriced
        },
        (DualAuthProvider::OpenAI, AuthMode::ApiKey) => PlanView::MeteredOrOpenAiPlan,
        (DualAuthProvider::OpenAI, AuthMode::Oauth) => match openai_mode {
            AuthMode::ApiKey => PlanView::MeteredOrOpenAiPlan,
            AuthMode::Oauth => PlanView::OpenAiPlan,
        },
    }
}

/// How a route is priced, where `route` is what its method says about a vendor
/// with both kinds of billing.
pub open spec fn route_plan(
    model: Seq<char>,
    provider: Seq<char>,
    api_method: Seq<char>,
    route: Option<AuthRoute>,
    openai_mode: AuthMode,
    is_anthropic: bool,
    is_openai: bool,
    names: NamesView,
) -> PlanView {
    match route {
        Some(route) => dual_plan(route, provider, openai_mode, names),
        None => if text::begins(api_method, "openai-compatible:"@) {
            PlanView::Metered(api_method)
        } else if api_method == "copilot"@ {
            PlanView::CopilotPlan
        } else if api_method == "openrouter"@ {
            PlanView::OpenRouter(openrouter_id(model, is_anthropic, is_openai))
        } else {
            PlanView::Unpriced
        },
    }
}

/// Decide how a route is priced.
pub fn plan_route(
    model: &str,
    provider: &str,
    api_method: &str,
    route: Option<AuthRoute>,
    openai_mode: AuthMode,
    is_anthropic: bool,
    is_openai: bool,
    names: &VendorNames,
) -> (r: RoutePlan)
    ensures
        r@ == route_plan(
            model@,
            provider@,
            api_method@,
            route,
            openai_mode,
            is_anthropic,
            is_openai,
            names@,
        ),
{
    if let Some(route) = route {
        return match (route.provider, route.mode) {
            (DualAuthProvider::Anthropic, AuthMode::Oauth) => RoutePlan::AnthropicPlan,
            (DualAuthProvider::Anthropic, AuthMode::ApiKey) => if text::same(
                provider,
                "Anthropic",
            ) {
                RoutePlan::Metered(names.api_key())
            } else {
                RoutePlan::Unpriced
            },
            (DualAuthProvider::OpenAI, AuthMode::ApiKey) => RoutePlan::MeteredOrOpenAiPlan,
            (DualAuthProvider::OpenAI, AuthMode::Oauth) => match openai_mode {
                AuthMode::ApiKey => RoutePlan::MeteredOrOpenAiPlan,
                AuthMode::Oauth => RoutePlan::OpenAiPlan,
            },
        };
    }
    if text::starts_with(api_method, "openai-compatible:") {
        return RoutePlan::Metered(text::owned(api_method));
    }
    if text::same(api_method, "copilot") {
        return RoutePlan::CopilotPlan;
    }
    if !text::same(api_method, "openrouter") {
        return RoutePlan::Unpriced;
    }
    let id = if text::has_char(model, '/') {
        text::owned(model)
    } else if is_anthropic {
        text::join2("anthropic/", model)
    } else if is_openai {
        text::join2("openai/", model)
    } else {
        text::owned(model)
    };
    RoutePlan::OpenRouter(id)
}

/// The estimates that a plan may need from the caller.
#[derive(Debug)]
pub struct PlanEstimates<E> {
    pub anthropic_plan: E,
    pub openai_plan: E,
    pub copilot_plan: E,
    /// OpenRouter's price of the route, for the provider that it names.
    pub openrouter_route: Option<E>,
    pub given: GivenEstimates<E>,
}

/// What a route costs under a plan.
pub open spec fn route_cost<E>(
    layers: PriceLayers,
    plan: PlanView,
    model: Seq<char>,
    at: Instant,
    estimates: PlanEstimates<E>,
) -> Option<RoutePriceView<E>> {
    match plan {
        PlanView::AnthropicPlan => Some(RoutePriceView::Given(estimates.anthropic_plan)),
        PlanView::OpenAiPlan => Some(RoutePriceView::Given(estimates.openai_plan)),
        PlanView::CopilotPlan => Some(RoutePriceView::Given(estimates.copilot_plan)),
        PlanView::Metered(key) => metered_price(layers, key, model, at, estimates.given),
        PlanView::MeteredOrOpenAiPlan => match metered_price(
            layers,
            "openai:api-key"@,
            model,
            at,
            estimates.given,
        ) {
            Some(price) => Some(price),
            None => if config_estimate(layers, "openai:api-key"@, model, at) is Refuse {
                None
            } else {
                Some(RoutePriceView::Given(estimates.openai_plan))
            },
        },
        PlanView::OpenRouter(id) => match config_estimate(layers, "openrouter"@, id, at) {
            ConfigEstimateView::Priced(estimate) => Some(RoutePriceView::Metered(estimate)),
            ConfigEstimateView::Refuse => None,
            ConfigEstimateView::Absent => match estimates.openrouter_route {
                Some(estimate) => Some(RoutePriceView::Given(estimate)),
                None => metered_price(layers, "openrouter"@, id, at, estimates.given),
            },
        },
        PlanView::Unpriced => None,
    }
}

/// The source key and the model that billing asks for under a plan, where it
/// bills per token.
pub open spec fn billed_as(plan: PlanView, model: Seq<char>) -> Option<(Seq<char>, Seq<char>)> {
    match plan {
        PlanView::Metered(key) => Some((key, model)),
        PlanView::MeteredOrOpenAiPlan => Some(("openai:api-key"@, model)),
        PlanView::OpenRouter(id) => Some(("openrouter"@, id)),
        _ => None,
    }
}

/// A route that bills per token has no estimate of any kind where the user's own
/// rule refuses to price the call.
pub proof fn refused_route_has_no_estimate<E>(
    layers: PriceLayers,
    plan: PlanView,
    model: Seq<char>,
    at: Instant,
    estimates: PlanEstimates<E>,
)
    requires
        billed_as(plan, model) is Some,
        ({
            let (key, id) = billed_as(plan, model)->Some_0;
            call_rates::call_rates(layers, key, id, at, None) is ConfiguredWithoutPrice
        }),
    ensures
        route_cost(layers, plan, model, at, estimates) is None,
{
}

/// What a route costs. The config is authoritative on OpenRouter routes too,
/// ahead of OpenRouter's own caches, and a refusal of its is not replaced by a
/// plan's estimate.
pub fn cheapness_for_route<E>(
    layers: &PriceLayers,
    plan: &RoutePlan,
    model: &str,
    at: Instant,
    estimates: PlanEstimates<E>,
) -> (r: Option<RoutePrice<E>>)
    ensures
        model::opt_view(r) == route_cost(*layers, plan@, model@, at, estimates),
{
    match plan {
        RoutePlan::AnthropicPlan => Some(RoutePrice::Given(estimates.anthropic_plan)),
        RoutePlan::OpenAiPlan => Some(RoutePrice::Given(estimates.openai_plan)),
        RoutePlan::CopilotPlan => Some(RoutePrice::Given(estimates.copilot_plan)),
        RoutePlan::Metered(key) => metered_pricing_for_source_at(
            layers,
            key.as_str(),
            model,
            at,
            estimates.given,
        ),
        RoutePlan::MeteredOrOpenAiPlan => match config_price_estimate(
            layers,
            "openai:api-key",
            model,
            at,
        ) {
            ConfigPriceEstimate::Priced(estimate) => Some(RoutePrice::Metered(estimate)),
            ConfigPriceEstimate::Refuse => None,
            ConfigPriceEstimate::Absent => match derived_pricing_for_source_at_size(
                layers,
                "openai:api-key",
                model,
                at,
                None,
                estimates.given,
            ) {
                Some(price) => Some(price),
                None => Some(RoutePrice::Given(estimates.openai_plan)),
            },
        },
        RoutePlan::OpenRouter(id) => match config_price_estimate(
            layers,
            "openrouter",
            id.as_str(),
            at,
        ) {
            ConfigPriceEstimate::Priced(estimate) => Some(RoutePrice::Metered(estimate)),
            ConfigPriceEstimate::Refuse => None,
            ConfigPriceEstimate::Absent => match estimates.openrouter_route {
                Some(estimate) => Some(RoutePrice::Given(estimate)),
                None => metered_pricing_for_source_at(
                    layers,
                    "openrouter",
                    id.as_str(),
                    at,
                    estimates.given,
                ),
            },
        },
        RoutePlan::Unpriced => None,
    }
}

/// What OpenAI's stored credentials hold.
#[derive(Debug, Clone, Copy, PartialEq, Eq, Structural)]
pub struct OpenAiCredentials {
    pub has_refresh_token: bool,
    pub has_id_token: bool,
}

/// How OpenAI's routes bill: stored credentials decide by what they hold, and
/// without any an API key in the environment does.
pub open spec fn effective_mode(
    credentials: Option<OpenAiCredentials>,
    api_key: Option<Seq<char>>,
) -> AuthMode {
    match credentials {
        Some(c) => if c.has_refresh_token || c.has_id_token {
            AuthMode::Oauth
        } else {
            AuthMode::ApiKey
        },
        None => if api_key is Some && text::trimmed(api_key->Some_0).len() > 0 {
            AuthMode::ApiKey
        } else {
            AuthMode::Oauth
        },
    }
}

pub fn openai_effective_auth_mode(
    credentials: Option<OpenAiCredentials>,
    api_key: &Option<String>,
) -> (r: AuthMode)
    ensures
        r == effective_mode(credentials, model::opt_view(*api_key)),
{
    match credentials {
        Some(c) => if c.has_refresh_token || c.has_id_token {
            AuthMode::Oauth
        } else {
            AuthMode::ApiKey
        },
        None => match api_key {
            Some(key) => {
                let rest = text::chars_of(text::trim(key.as_str()));
                if rest.len() > 0 {
                    AuthMode::ApiKey
                } else {
                    AuthMode::Oauth
                }
            },
            None => AuthMode::Oauth,
        },
    }
}

/// How long a price input that was read from credentials is kept: five seconds,
/// in nanoseconds.
pub const AUTH_PRICING_MEMO_TTL_NANOS: u64 = 5_000_000_000;

/// The price inputs that were read from credentials, each with the nanosecond of
/// a monotonic clock at which it was read.
#[derive(Debug)]
pub struct AuthPricingMemos {
    pub subscription: Option<(u64, Option<String>)>,
    pub openai_mode: Option<(u64, AuthMode)>,
    /// Changes on every invalidation.
    pub generation: u64,
}

/// Whether what was read at one nanosecond still counts at another.
pub open spec fn still_counts(read_at: u64, now: u64) -> bool {
    now - read_at < AUTH_PRICING_MEMO_TTL_NANOS
}

fn counts(read_at: u64, now: u64) -> (r: bool)
    ensures
        r == still_counts(read_at, now),
{
    now < read_at || now - read_at < AUTH_PRICING_MEMO_TTL_NANOS
}

impl AuthPricingMemos {
    /// The subscription type that is kept at a nanosecond.
    pub open spec fn subscription_at(self, now: u64) -> Option<Option<Seq<char>>> {
        match self.subscription {
            Some(kept) => if still_counts(kept.0, now) {
                Some(model::opt_view(kept.1))
            } else {
                None
            },
            None => None,
        }
    }

    /// The billing mode that is kept at a nanosecond.
    pub open spec fn mode_at(self, now: u64) -> Option<AuthMode> {
        match self.openai_mode {
            Some(kept) => if still_counts(kept.0, now) {
                Some(kept.1)
            } else {
                None
            },
            None => None,
        }
    }

    pub fn new() -> (r: AuthPricingMemos)
        ensures
            r.subscription is None,
            r.openai_mode is None,
            r.generation == 0,
    {
        AuthPricingMemos { subscription: None, openai_mode: None, generation: 0 }
    }

    /// The kept billing mode, if it still counts.
    pub fn kept_mode(&self, now: u64) -> (r: Option<AuthMode>)
        ensures
            r == self.mode_at(now),
    {
        match self.openai_mode {
            Some(kept) => if counts(kept.0, now) {
                Some(kept.1)
            } else {
                None
            },
            None => None,
        }
    }

    pub fn keep_mode(&mut self, mode: AuthMode, now: u64)
        ensures
            final(self).openai_mode == Some((now, mode)),
            final(self).subscription == old(self).subscription,
            final(self).generation == old(self).generation,
    {
        self.openai_mode = Some((now, mode));
    }

    /// The kept subscription type, if it still counts.
    pub fn kept_subscription(&self, now: u64) -> (r: Option<Option<String>>)
        ensures
            match r {
                Some(kept) => self.subscription_at(now) == Some(model::opt_view(kept)),
                None => self.subscription_at(now) is None,
            },
    {
        match &self.subscription {
            Some(kept) => if counts(kept.0, now) {
                Some(model::copy_text(&kept.1))
            } else {
                None
            },
            None => None,
        }
    }

    /// Keep a subscription type, without white space around it and in small
    /// letters.
    pub fn keep_subscription(&mut self, raw: &Option<String>, now: u64)
        ensures
            final(self).subscription is Some,
            final(self).subscription->Some_0.0 == now,
            model::opt_view(final(self).subscription->Some_0.1) == match model::opt_view(*raw) {
                Some(raw) => Some(text::lowered(text::trimmed(raw))),
                None => None,
            },
            final(self).openai_mode == old(self).openai_mode,
            final(self).generation == old(self).generation,
    {
        let kept = match raw {
            Some(raw) => Some(text::to_lower(text::trim(raw.as_str()))),
            None => None,
        };
        self.subscription = Some((now, kept));
    }

    /// Drop what is kept, because the credentials changed.
    pub fn invalidate_auth_pricing_memos(&mut self)
        ensures
            final(self).subscription is None,
            final(self).openai_mode is None,
            final(self).generation == crate::pricing_memo::next_generation(old(self).generation),
    {
        self.generation = if self.generation == u64::MAX {
            0
        } else {
            self.generation + 1
        };
        self.subscription = None;
        self.openai_mode = None;
    }
}

/// Whether Copilot's premium requests are switched off.
pub fn copilot_zero_premium(setting: &Option<String>) -> (r: bool)
    ensures
        r == (model::opt_view(*setting) == Some("0"@)),
{
    match setting {
        Some(value) => text::same(value.as_str(), "0"),
        None => false,
    }
}

/// The reference cost of a route in the base currency, where `quotient` is the
/// value of the quotient that its conversion asks for and `rounded` is that
/// value rounded to a whole number.
pub open spec fn comparable_cost(
    reference: Option<u64>,
    currency: Seq<char>,
    fx: FxView,
    quotient: Rate,
    rounded: u64,
) -> Option<u64> {
    match reference {
        None => None,
        Some(micros) => match fx::conversion(fx, currency, fx.base) {
            Conversion::Same => Some(micros),
            Conversion::Through { from, to } => if quotient.finite() {
                Some(rounded)
            } else {
                None
            },
            Conversion::Impossible => None,
        },
    }
}

/// The number that routes of different currencies are ordered by. A currency
/// that the table cannot convert has none: it must not be compared as if the
/// units matched.
pub fn comparable_reference_cost_micros(
    reference: Option<u64>,
    currency: &Currency,
    fx: &FxTable,
    quotient: Rate,
    rounded: u64,
) -> (r: Option<u64>)
    ensures
        r == comparable_cost(reference, currency@, fx@, quotient, rounded),
{
    match reference {
        None => None,
        Some(micros) => match fx::plan_conversion(currency, &fx.base, fx) {
            Conversion::Same => Some(micros),
            Conversion::Through { from: _, to: _ } => if quotient.is_finite() {
                Some(rounded)
            } else {
                None
            },
            Conversion::Impossible => None,
        },
    }
}

/// On an OpenRouter route a model id that names a vendor stays as it is. One
/// that does not is looked up as a model of the vendor that makes it, and any
/// other stays.
pub proof fn openrouter_route_names_the_vendor(
    model: Seq<char>,
    provider: Seq<char>,
    openai_mode: AuthMode,
    is_anthropic: bool,
    is_openai: bool,
    names: NamesView,
)
    ensures
        ({
            let plan = route_plan(
                model,
                provider,
                "openrouter"@,
                None,
                openai_mode,
                is_anthropic,
                is_openai,
                names,
            );
            let slash = exists|i: int| 0 <= i < model.len() && model[i] == '/';
            &&& plan is OpenRouter
            &&& slash ==> plan->OpenRouter_0 == model
            &&& !slash && is_anthropic ==> plan->OpenRouter_0 == "anthropic/"@ + model
            &&& !slash && !is_anthropic && is_openai ==> plan->OpenRouter_0 == "openai/"@ + model
            &&& !slash && !is_anthropic && !is_openai ==> plan->OpenRouter_0 == model
        }),
{
    reveal_strlit("openrouter");
    reveal_strlit("openai-compatible:");
    reveal_strlit("copilot");
    assert("openrouter"@.len() < "openai-compatible:"@.len());
    assert("openrouter"@.len() != "copilot"@.len());
}

/// A route of a compatible profile is metered under its own key, Copilot's is
/// priced by its plan, and a route of no known kind is not priced.
pub proof fn other_routes_have_their_plans(
    model: Seq<char>,
    provider: Seq<char>,
    profile: Seq<char>,
    api_method: Seq<char>,
    openai_mode: AuthMode,
    is_anthropic: bool,
    is_openai: bool,
    names: NamesView,
)
    ensures
        route_plan(
            model,
            provider,
            "openai-compatible:"@ + profile,
            None,
            openai_mode,
            is_anthropic,
            is_openai,
            names,
        ) == PlanView::Metered("openai-compatible:"@ + profile),
        route_plan(
            model,
            provider,
            "copilot"@,
            None,
            openai_mode,
            is_anthropic,
            is_openai,
            names,
        ) == PlanView::CopilotPlan,
        !text::begins(api_method, "openai-compatible:"@) && api_method != "copilot"@ && api_method
            != "openrouter"@ ==> route_plan(
            model,
            provider,
            api_method,
            None,
            openai_mode,
            is_anthropic,
            is_openai,
            names,
        ) == PlanView::Unpriced,
{
    reveal_strlit("openai-compatible:");
    reveal_strlit("copilot");
    let prefix = "openai-compatible:"@;
    assert((prefix + profile).take(prefix.len() as int) =~= prefix);
    assert("copilot"@.len() < prefix.len());
}

/// The vendors with both kinds of billing: a login is priced by the plan, except
/// that OpenAI's is metered where only an API key is configured. An API key is
/// metered under the vendor's own key, Anthropic's only on a route of that label.
pub proof fn dual_routes_have_their_plans(
    model: Seq<char>,
    provider: Seq<char>,
    api_method: Seq<char>,
    openai_mode: AuthMode,
    is_anthropic: bool,
    is_openai: bool,
    names: NamesView,
    route: AuthRoute,
)
    ensures
        ({
            let plan = route_plan(
                model,
                provider,
                api_method,
                Some(route),
                openai_mode,
                is_anthropic,
                is_openai,
                names,
            );
            let anthropic = route.provider == DualAuthProvider::Anthropic;
            let key = route.mode == AuthMode::ApiKey;
            &&& anthropic && !key ==> plan == PlanView::AnthropicPlan
            &&& anthropic && key && provider == "Anthropic"@ ==> plan == PlanView::Metered(
                names.key + ":api-key"@,
            )
            &&& anthropic && key && provider != "Anthropic"@ ==> plan == PlanView::Unpriced
            &&& !anthropic && (key || openai_mode == AuthMode::ApiKey) ==> plan
                == PlanView::MeteredOrOpenAiPlan
            &&& !anthropic && !key && openai_mode == AuthMode::Oauth ==> plan
                == PlanView::OpenAiPlan
        }),
{
}

/// Each plan is priced by its own estimate.
pub proof fn plan_is_priced_by_its_own_estimate<E>(
    layers: PriceLayers,
    model: Seq<char>,
    key: Seq<char>,
    at: Instant,
    estimates: PlanEstimates<E>,
)
    ensures
        route_cost(layers, PlanView::AnthropicPlan, model, at, estimates) == Some(
            RoutePriceView::Given(estimates.anthropic_plan),
        ),
        route_cost(layers, PlanView::OpenAiPlan, model, at, estimates) == Some(
            RoutePriceView::Given(estimates.openai_plan),
        ),
        route_cost(layers, PlanView::CopilotPlan, model, at, estimates) == Some(
            RoutePriceView::Given(estimates.copilot_plan),
        ),
        route_cost(layers, PlanView::Unpriced, model, at, estimates) is None,
        route_cost(layers, PlanView::Metered(key), model, at, estimates) == metered_price(
            layers,
            key,
            model,
            at,
            estimates.given,
        ),
        ({
            let metered = metered_price(layers, "openai:api-key"@, model, at, estimates.given);
            let refused = call_rates::call_rates(layers, "openai:api-key"@, model, at, None)
                is ConfiguredWithoutPrice;
            let cost = route_cost(layers, PlanView::MeteredOrOpenAiPlan, model, at, estimates);
            &&& metered is Some ==> cost == metered
            &&& metered is None && !refused ==> cost == Some(
                RoutePriceView::Given(estimates.openai_plan),
            )
        }),
{
}

/// An OpenRouter route is priced by the user's card, else by OpenRouter's own
/// price of the route, else by what prices any OpenRouter model.
pub proof fn openrouter_route_asks_in_order<E>(
    layers: PriceLayers,
    id: Seq<char>,
    model: Seq<char>,
    at: Instant,
    estimates: PlanEstimates<E>,
)
    ensures
        ({
            let cost = route_cost(layers, PlanView::OpenRouter(id), model, at, estimates);
            match call_rates::call_rates(layers, "openrouter"@, id, at, None) {
                CallRatesView::Priced(card) => {
                    &&& cost is Some
                    &&& cost->Some_0 is Metered
                    &&& cost->Some_0->Metered_0.input == card.input_per_mtok
                    &&& cost->Some_0->Metered_0.output == card.output_per_mtok
                    &&& cost->Some_0->Metered_0.currency == card.currency
                },
                CallRatesView::ConfiguredWithoutPrice => cost is None,
                _ => match estimates.openrouter_route {
                    Some(estimate) => cost == Some(RoutePriceView::Given(estimate)),
                    None => cost == metered_price(layers, "openrouter"@, id, at, estimates.given),
                },
            }
        }),
{
}

/// The estimate of a hand-written card has the rates that the card bills, in
/// the card's currency, and says where they come from.
pub proof fn config_estimate_has_the_billed_rates(
    layers: PriceLayers,
    source_key: Seq<char>,
    model: Seq<char>,
    at: Instant,
)
    ensures
        match call_rates::call_rates(layers, source_key, model, at, None) {
            CallRatesView::Priced(card) => {
                let estimate = config_estimate(layers, source_key, model, at);
                &&& estimate is Priced
                &&& estimate->Priced_0.input == card.input_per_mtok
                &&& estimate->Priced_0.output == card.output_per_mtok
                &&& estimate->Priced_0.cache_read == card.cache_read_per_mtok
                &&& estimate->Priced_0.currency == card.currency
                &&& estimate->Priced_0.source == RouteCostSource::ConfigPriceSheet
                &&& estimate->Priced_0.confidence == RouteCostConfidence::Exact
                &&& estimate->Priced_0.note == "config [pricing.providers] card in "@
                    + card.currency
            },
            CallRatesView::ConfiguredWithoutPrice => config_estimate(
                layers,
                source_key,
                model,
                at,
            ) is Refuse,
            _ => config_estimate(layers, source_key, model, at) is Absent,
        },
{
}

/// The estimate of a vendor file has the rates of the card that the file puts
/// forward, in its currency.
pub proof fn vendor_estimate_has_the_files_rates(
    layers: PriceLayers,
    source_key: Seq<char>,
    model: Seq<char>,
    at: Instant,
    input_tokens: Option<u64>,
)
    ensures
        ({
            let vendor = price_layers::vendor_card_from(
                layers,
                source_key,
                model,
                at,
                input_tokens,
                0,
            );
            let estimate = vendor_estimate(layers, source_key, model, at, input_tokens);
            &&& estimate is Some <==> vendor is Some && vendor->Some_0.card.tier.prices.input
                is Some && vendor->Some_0.card.tier.prices.output is Some
            &&& estimate is Some ==> {
                &&& Some(estimate->Some_0.input) == vendor->Some_0.card.tier.prices.input
                &&& Some(estimate->Some_0.output) == vendor->Some_0.card.tier.prices.output
                &&& estimate->Some_0.cache_read == vendor->Some_0.card.tier.prices.cache_read
                &&& estimate->Some_0.currency == vendor->Some_0.card.currency
                &&& estimate->Some_0.source == RouteCostSource::ExtraPriceSource
                &&& estimate->Some_0.confidence == RouteCostConfidence::Exact
                &&& estimate->Some_0.note == "pricing.providers `"@ + vendor->Some_0.vendor
                    + "` file in "@ + vendor->Some_0.card.currency
            }
        }),
{
}

/// The estimate of a sheet has the rates of its card, in its currency, unless
/// the card lost to the next layer.
pub proof fn sheet_estimate_has_the_sheets_rates(
    layers: PriceLayers,
    source_key: Seq<char>,
    model: Seq<char>,
    at: Instant,
    input_tokens: Option<u64>,
)
    ensures
        ({
            let sheet = price_layers::sheet_card(layers, source_key, model, at, input_tokens);
            let estimate = sheet_estimate(layers, source_key, model, at, input_tokens);
            &&& estimate is Some <==> sheet is Some && sheet->Some_0.card.from_config
                && sheet->Some_0.card.tier.prices.input is Some
                && sheet->Some_0.card.tier.prices.output is Some
            &&& estimate is Some ==> {
                &&& Some(estimate->Some_0.input) == sheet->Some_0.card.tier.prices.input
                &&& Some(estimate->Some_0.output) == sheet->Some_0.card.tier.prices.output
                &&& estimate->Some_0.cache_read == sheet->Some_0.card.tier.prices.cache_read
                &&& estimate->Some_0.currency == sheet->Some_0.card.currency
                &&& estimate->Some_0.source == RouteCostSource::ExtraPriceSource
                &&& estimate->Some_0.confidence == RouteCostConfidence::Exact
                &&& estimate->Some_0.note == "pricing source `"@ + sheet->Some_0.source_id
                    + "` in "@ + sheet->Some_0.card.currency
            }
        }),
{
}

/// The estimate of the catalog has the catalog's rates, which are in USD.
pub proof fn catalog_estimate_has_the_catalogs_rates(
    layers: PriceLayers,
    source_key: Seq<char>,
    model: Seq<char>,
    at: Instant,
    input_tokens: Option<u64>,
)
    ensures
        ({
            let card = price_layers::dev_entry(layers, source_key, model, at, input_tokens);
            let estimate = catalog_estimate(layers, source_key, model, at, input_tokens);
            &&& estimate is Some <==> card is Some && card->Some_0.prices.input is Some
                && card->Some_0.prices.output is Some
            &&& estimate is Some ==> {
                &&& Some(estimate->Some_0.input) == card->Some_0.prices.input
                &&& Some(estimate->Some_0.output) == card->Some_0.prices.output
                &&& estimate->Some_0.cache_read == card->Some_0.prices.cache_read
                &&& estimate->Some_0.currency == "USD"@
                &&& estimate->Some_0.source == RouteCostSource::ModelsDevCatalog
                &&& estimate->Some_0.confidence == RouteCostConfidence::High
            }
        }),
{
}

/// A table of the caller counts for the API key of its own vendor, OpenRouter's
/// caches for OpenRouter, and for any other key none does.
pub proof fn tables_count_for_their_own_keys<E>(
    given: GivenEstimates<E>,
    source_key: Seq<char>,
    names: NamesView,
)
    requires
        names.key + ":api-key"@ != "openai:api-key"@,
        names.key + ":api-key"@ != "openrouter"@,
    ensures
        given_for(given, names.key + ":api-key"@, names) == given.anthropic,
        given_for(given, "openai:api-key"@, names) == given.openai,
        given_for(given, "openrouter"@, names) == given.openrouter,
        source_key != names.key + ":api-key"@ && source_key != "openai:api-key"@ && source_key
            != "openrouter"@ ==> given_for(given, source_key, names) is None,
{
    reveal_strlit("openai:api-key");
    reveal_strlit("openrouter");
    assert("openai:api-key"@.len() != "openrouter"@.len());
}

/// Below the hand-written cards the layers rank: a vendor file, a sheet, the
/// caller's own tables, the catalog. Each prices only what none above it does.
pub proof fn derived_estimates_rank<E>(
    layers: PriceLayers,
    source_key: Seq<char>,
    model: Seq<char>,
    at: Instant,
    input_tokens: Option<u64>,
    given: GivenEstimates<E>,
)
    ensures
        ({
            let vendor = vendor_estimate(layers, source_key, model, at, input_tokens);
            let sheet = sheet_estimate(layers, source_key, model, at, input_tokens);
            let table = given_for(given, source_key, layers.names@);
            let catalog = catalog_estimate(layers, source_key, model, at, input_tokens);
            let price = derived_price(layers, source_key, model, at, input_tokens, given);
            &&& vendor is Some ==> price == Some(RoutePriceView::<E>::Metered(vendor->Some_0))
            &&& vendor is None && sheet is Some ==> price == Some(
                RoutePriceView::<E>::Metered(sheet->Some_0),
            )
            &&& vendor is None && sheet is None && table is Some ==> price == Some(
                RoutePriceView::Given(table->Some_0),
            )
            &&& vendor is None && sheet is None && table is None && catalog is Some ==> price
                == Some(RoutePriceView::<E>::Metered(catalog->Some_0))
            &&& vendor is None && sheet is None && table is None && catalog is None ==> price
                is None
        }),
{
}

/// A route that no hand-written rule claims, or whose rule is out of effect, is
/// priced by the layers below, as a call of unknown size.
pub proof fn unclaimed_route_is_priced_below<E>(
    layers: PriceLayers,
    source_key: Seq<char>,
    model: Seq<char>,
    at: Instant,
    given: GivenEstimates<E>,
)
    requires
        call_rates::call_rates(layers, source_key, model, at, None) is Absent
            || call_rates::call_rates(layers, source_key, model, at, None) is OutOfEffect,
    ensures
        metered_price(layers, source_key, model, at, given) == derived_price(
            layers,
            source_key,
            model,
            at,
            None,
            given,
        ),
{
}

proof fn lemma_name_from(names: Seq<Seq<char>>, name: Seq<char>, from: int, at: int)
    requires
        0 <= from <= at <= names.len(),
        forall|k: int| from <= k < at ==> #[trigger] names[k] != name,
        at < names.len() ==> names[at] == name,
    ensures
        name_from(names, name, from) == if at < names.len() {
            Some(at)
        } else {
            None
        },
    decreases at - from,
{
    if from < at {
        assert(names[from] != name);
        lemma_name_from(names, name, from + 1, at);
    }
}

/// The automatic route takes the first endpoint; any other takes the first
/// endpoint of the provider it names, where a pin in the model id stands for the
/// provider. Without such an endpoint the catalog's price counts.
pub proof fn openrouter_takes_the_named_endpoint(
    provider: Seq<char>,
    pin: Option<Seq<char>>,
    endpoints: Seq<Seq<char>>,
    at: int,
)
    requires
        0 <= at <= endpoints.len(),
        ({
            let name = if pin is Some {
                pin->Some_0
            } else {
                provider
            };
            &&& forall|k: int| 0 <= k < at ==> #[trigger] endpoints[k] != name
            &&& at < endpoints.len() ==> endpoints[at] == name
        }),
    ensures
        ({
            let name = if pin is Some {
                pin->Some_0
            } else {
                provider
            };
            let choice = openrouter_choice(provider, pin, Some(endpoints));
            &&& name == "auto"@ && endpoints.len() > 0 ==> choice == ChoiceView::Endpoint(
                0,
                "OpenRouter auto route currently prefers "@ + endpoints[0],
            )
            &&& name != "auto"@ && at < endpoints.len() ==> choice == ChoiceView::Endpoint(
                at,
                "OpenRouter endpoint pricing for "@ + name,
            )
            &&& name != "auto"@ && at == endpoints.len() ==> choice is Catalog
            &&& endpoints.len() == 0 ==> choice is Catalog
            &&& openrouter_choice(provider, pin, None) is Catalog
        }),
{
    let name = if pin is Some {
        pin->Some_0
    } else {
        provider
    };
    lemma_name_from(endpoints, name, 0, at);
}

/// Stored credentials with a token of a login bill by subscription, and without
/// one by the API key. Where none are stored, an API key that is more than white
/// space decides.
pub proof fn credentials_decide_how_openai_bills(
    credentials: OpenAiCredentials,
    api_key: Option<Seq<char>>,
)
    ensures
        credentials.has_refresh_token ==> effective_mode(Some(credentials), api_key)
            == AuthMode::Oauth,
        credentials.has_id_token ==> effective_mode(Some(credentials), api_key) == AuthMode::Oauth,
        !credentials.has_refresh_token && !credentials.has_id_token ==> effective_mode(
            Some(credentials),
            api_key,
        ) == AuthMode::ApiKey,
        effective_mode(None, None) == AuthMode::Oauth,
        api_key is Some ==> (effective_mode(None, api_key) == AuthMode::ApiKey
            <==> text::trimmed(api_key->Some_0) != Seq::<char>::empty()),
{
    if api_key is Some && text::trimmed(api_key->Some_0).len() == 0 {
        assert(text::trimmed(api_key->Some_0) =~= Seq::<char>::empty());
    }
}

/// What was read from credentials counts for five seconds, and a new reading
/// takes the place of an old one at once.
pub proof fn auth_inputs_count_for_five_seconds(
    memos: AuthPricingMemos,
    read_at: u64,
    now: u64,
    mode: AuthMode,
)
    requires
        read_at <= now,
        memos.openai_mode == Some((read_at, mode)),
    ensures
        now - read_at < 5_000_000_000 ==> memos.mode_at(now) == Some(mode),
        now - read_at >= 5_000_000_000 ==> memos.mode_at(now) is None,
{
}

/// Routes are compared in the base currency: a reference cost that is in it
/// counts as it is, one that the table converts counts converted, and any other
/// has none.
pub proof fn routes_are_compared_in_the_base_currency(
    micros: u64,
    currency: Seq<char>,
    fx: FxView,
    quotient: Rate,
    rounded: u64,
)
    ensures
        comparable_cost(None, currency, fx, quotient, rounded) is None,
        comparable_cost(Some(micros), fx.base, fx, quotient, rounded) == Some(micros),
        currency != fx.base && fx::ratio_in(fx, currency) is Some && quotient.finite() ==> comparable_cost(
            Some(micros),
            currency,
            fx,
            quotient,
            rounded,
        ) == Some(rounded),
        currency != fx.base && (fx::ratio_in(fx, currency) is None || !quotient.finite())
            ==> comparable_cost(Some(micros), currency, fx, quotient, rounded) is None,
{
}

} // verus!
