//! The validated `[pricing]` types.

use crate::clock::{ClockTime, Instant, Weekday};
use crate::config_types::OnRuleExpiry;
use crate::currency::Currency;
use crate::model;
use crate::rate::Rate;
use vstd::prelude::*;

verus! {

/// A validation failure, carrying the config path that caused it.
#[derive(Debug, Clone, PartialEq, Eq)]
pub struct PricingConfigError {
    pub field_path: String,
    pub message: String,
}

pub struct ErrorView {
    pub field_path: Seq<char>,
    pub message: Seq<char>,
}

impl View for PricingConfigError {
    type V = ErrorView;

    open spec fn view(&self) -> ErrorView {
        ErrorView { field_path: self.field_path@, message: self.message@ }
    }
}

/// Price fields for one rate card. All optional so layers can merge per field.
#[derive(Debug, Clone, Copy, PartialEq, Eq, Structural)]
pub struct CostFields {
    pub input: Option<Rate>,
    pub output: Option<Rate>,
    pub cache_read: Option<Rate>,
    pub cache_write: Option<Rate>,
}

impl CostFields {
    /// The card that states nothing.
    pub open spec fn none() -> CostFields {
        CostFields { input: None, output: None, cache_read: None, cache_write: None }
    }

    /// Both of the rates that a call is priced by are stated.
    pub open spec fn complete(self) -> bool {
        self.input is Some && self.output is Some
    }

    pub fn empty() -> (r: CostFields)
        ensures
            r == CostFields::none(),
    {
        CostFields { input: None, output: None, cache_read: None, cache_write: None }
    }

    pub fn is_complete(&self) -> (r: bool)
        ensures
            r == self.complete(),
    {
        self.input.is_some() && self.output.is_some()
    }
}

/// Whether two rates are both unset or have the same value.
pub open spec fn rates_agree(a: Option<Rate>, b: Option<Rate>) -> bool {
    match (a, b) {
        (Some(x), Some(y)) => x.equals(y),
        (None, None) => true,
        _ => false,
    }
}

fn same_rates(a: Option<Rate>, b: Option<Rate>) -> (r: bool)
    ensures
        r == rates_agree(a, b),
{
    match (a, b) {
        (Some(x), Some(y)) => x.same(&y),
        (None, None) => true,
        _ => false,
    }
}

impl CostFields {
    /// The cards state the same fields, with the same values.
    pub open spec fn agrees(self, other: CostFields) -> bool {
        &&& rates_agree(self.input, other.input)
        &&& rates_agree(self.output, other.output)
        &&& rates_agree(self.cache_read, other.cache_read)
        &&& rates_agree(self.cache_write, other.cache_write)
    }

    /// Whether two cards state the same values.
    pub fn same(&self, other: &CostFields) -> (r: bool)
        ensures
            r == self.agrees(*other),
    {
        same_rates(self.input, other.input) && same_rates(self.output, other.output) && same_rates(
            self.cache_read,
            other.cache_read,
        ) && same_rates(self.cache_write, other.cache_write)
    }
}

/// A named rate card: absolute prices, or a multiplier on the base cost.
#[derive(Debug, Clone, Copy, PartialEq, Eq, Structural)]
pub enum Tariff {
    Absolute(CostFields),
    Multiplier(Rate),
}

impl Tariff {
    /// The tariffs are of one kind and state the same values.
    pub open spec fn agrees(self, other: Tariff) -> bool {
        match (self, other) {
            (Tariff::Absolute(a), Tariff::Absolute(b)) => a.agrees(b),
            (Tariff::Multiplier(a), Tariff::Multiplier(b)) => a.equals(b),
            _ => false,
        }
    }

    /// Whether two tariffs state the same values.
    pub fn same(&self, other: &Tariff) -> (r: bool)
        ensures
            r == self.agrees(*other),
    {
        match (self, other) {
            (Tariff::Absolute(a), Tariff::Absolute(b)) => a.same(b),
            (Tariff::Multiplier(a), Tariff::Multiplier(b)) => a.same(b),
            _ => false,
        }
    }
}

/// One window in local (offset-shifted) time. `[start, end)`; a start after the
/// end means the window wraps past midnight and belongs to the start day.
#[derive(Debug, Clone, Copy, PartialEq, Eq, Structural)]
pub struct TimeWindow {
    pub start: ClockTime,
    pub end: ClockTime,
}

impl TimeWindow {
    /// The window goes on past midnight.
    pub open spec fn wraps(self) -> bool {
        self.end.earlier(self.start)
    }

    /// Whether the window wraps past midnight.
    pub fn wraps_midnight(&self) -> (r: bool)
        ensures
            r == self.wraps(),
    {
        self.end.is_before(self.start)
    }
}

/// A validated `schedule` entry.
#[derive(Debug)]
pub struct ScheduleRule {
    pub tariff: String,
    pub utc_offset_minutes: i32,
    pub weekdays: Vec<Weekday>,
    pub windows: Vec<TimeWindow>,
}

#[verifier::ext_equal]
pub struct ScheduleView {
    pub tariff: Seq<char>,
    pub utc_offset_minutes: i32,
    pub weekdays: Seq<Weekday>,
    pub windows: Seq<TimeWindow>,
}

impl View for ScheduleRule {
    type V = ScheduleView;

    open spec fn view(&self) -> ScheduleView {
        ScheduleView {
            tariff: self.tariff@,
            utc_offset_minutes: self.utc_offset_minutes,
            weekdays: self.weekdays@,
            windows: self.windows@,
        }
    }
}

/// A long-context overlay: above `min_input_tokens`, apply `tariff`.
#[derive(Debug, Clone, Copy, PartialEq, Eq, Structural)]
pub struct ContextTier {
    pub min_input_tokens: u64,
    pub tariff: Tariff,
}

impl ContextTier {
    /// The tiers begin at one size and state the same values.
    pub open spec fn agrees(self, other: ContextTier) -> bool {
        self.min_input_tokens == other.min_input_tokens && self.tariff.agrees(other.tariff)
    }

    /// Whether two tiers state the same.
    pub fn same(&self, other: &ContextTier) -> (r: bool)
        ensures
            r == self.agrees(*other),
    {
        self.min_input_tokens == other.min_input_tokens && self.tariff.same(&other.tariff)
    }
}

/// A validated per-model rate rule.
#[derive(Debug, Clone)]
pub struct ModelPricingRule {
    pub cost: Option<CostFields>,
    pub tariffs: Vec<(String, Tariff)>,
    pub schedule: Vec<ScheduleRule>,
    pub context_tiers: Vec<ContextTier>,
    pub default_tariff: Option<String>,
    pub effective_from: Option<Instant>,
    pub effective_until: Option<Instant>,
    pub on_rule_expiry: OnRuleExpiry,
}

#[verifier::ext_equal]
pub struct RuleView {
    pub cost: Option<CostFields>,
    pub tariffs: Seq<(Seq<char>, Tariff)>,
    pub schedule: Seq<ScheduleView>,
    pub context_tiers: Seq<ContextTier>,
    pub default_tariff: Option<Seq<char>>,
    pub effective_from: Option<Instant>,
    pub effective_until: Option<Instant>,
    pub on_rule_expiry: OnRuleExpiry,
}

impl View for ModelPricingRule {
    type V = RuleView;

    open spec fn view(&self) -> RuleView {
        RuleView {
            cost: self.cost,
            tariffs: model::keyed(self.tariffs@),
            schedule: model::seq_view(self.schedule@),
            context_tiers: self.context_tiers@,
            default_tariff: model::opt_view(self.default_tariff),
            effective_from: self.effective_from,
            effective_until: self.effective_until,
            on_rule_expiry: self.on_rule_expiry,
        }
    }
}

/// A validated per-provider rate rule set.
#[derive(Debug, Clone)]
pub struct ProviderPricing {
    pub currency: Option<Currency>,
    /// The local file with this vendor's further rules.
    pub file: Option<String>,
    pub models: Vec<(String, ModelPricingRule)>,
}

#[verifier::ext_equal]
pub struct ProviderView {
    pub currency: Option<Seq<char>>,
    pub file: Option<Seq<char>>,
    pub models: Seq<(Seq<char>, RuleView)>,
}

impl View for ProviderPricing {
    type V = ProviderView;

    open spec fn view(&self) -> ProviderView {
        ProviderView {
            currency: model::opt_view(self.currency),
            file: model::opt_view(self.file),
            models: model::keyed_view(self.models@),
        }
    }
}

/// A validated `[[pricing.sources]]` entry.
#[derive(Debug, Clone)]
pub struct PricingSource {
    pub id: String,
    /// The resolved local file the sheet is read from.
    pub path: String,
    /// Provider identities this sheet may price; empty means every provider.
    pub scope: Vec<String>,
    /// Model globs this sheet may price; empty means every model.
    pub models: Vec<String>,
    pub priority: i64,
    pub currency: Currency,
}

#[verifier::ext_equal]
pub struct SourceView {
    pub id: Seq<char>,
    pub path: Seq<char>,
    pub scope: Seq<Seq<char>>,
    pub models: Seq<Seq<char>>,
    pub priority: i64,
    pub currency: Seq<char>,
}

impl View for PricingSource {
    type V = SourceView;

    open spec fn view(&self) -> SourceView {
        SourceView {
            id: self.id@,
            path: self.path@,
            scope: model::seq_view(self.scope@),
            models: model::seq_view(self.models@),
            priority: self.priority,
            currency: self.currency@,
        }
    }
}

/// The validated runtime view of `[pricing]`.
#[derive(Debug, Clone)]
pub struct PricingConfig {
    pub fx_base: Currency,
    /// Units of each currency per unit of `fx_base`, each currency once.
    pub fx_rates: Vec<(Currency, Rate)>,
    pub providers: Vec<(String, ProviderPricing)>,
    /// Extra price sheets in resolution order (priority ascending, then `id`).
    pub sources: Vec<PricingSource>,
}

/// The table that a list of currencies with their rates stands for; a later
/// entry replaces an earlier one for the same currency.
pub open spec fn rate_table(entries: Seq<(Seq<char>, Rate)>) -> Map<Seq<char>, Rate>
    decreases entries.len(),
{
    if entries.len() == 0 {
        Map::empty()
    } else {
        rate_table(entries.drop_last()).insert(entries.last().0, entries.last().1)
    }
}

/// A table has exactly the currencies that are listed, and for each the rate of
/// its last entry.
pub proof fn table_has_the_last_rate_of_each_currency(
    entries: Seq<(Seq<char>, Rate)>,
    code: Seq<char>,
    last: int,
)
    requires
        0 <= last < entries.len() ==> entries[last].0 == code,
        -1 <= last < entries.len(),
        forall|k: int| last < k < entries.len() ==> (#[trigger] entries[k]).0 != code,
    ensures
        last >= 0 ==> rate_table(entries).contains_key(code) && rate_table(entries)[code]
            == entries[last].1,
        last < 0 ==> !rate_table(entries).contains_key(code),
    decreases entries.len(),
{
    if entries.len() > 0 {
        let front = entries.drop_last();
        if last < entries.len() - 1 {
            assert(entries[entries.len() - 1].0 != code);
            assert forall|k: int| last < k < front.len() implies (#[trigger] front[k]).0 != code by {
                assert(front[k] == entries[k]);
            }
            table_has_the_last_rate_of_each_currency(front, code, last);
        }
    }
}

/// The entries with their currencies as codes.
pub open spec fn coded(entries: Seq<(Currency, Rate)>) -> Seq<(Seq<char>, Rate)> {
    entries.map_values(|e: (Currency, Rate)| (e.0@, e.1))
}

#[verifier::ext_equal]
pub struct ConfigView {
    pub fx_base: Seq<char>,
    pub fx_rates: Map<Seq<char>, Rate>,
    pub providers: Seq<(Seq<char>, ProviderView)>,
    pub sources: Seq<SourceView>,
}

impl View for PricingConfig {
    type V = ConfigView;

    open spec fn view(&self) -> ConfigView {
        ConfigView {
            fx_base: self.fx_base@,
            fx_rates: rate_table(coded(self.fx_rates@)),
            providers: model::keyed_view(self.providers@),
            sources: model::seq_view(self.sources@),
        }
    }
}

impl PricingConfig {
    /// The section of a user who configured nothing.
    pub open spec fn nothing() -> ConfigView {
        ConfigView {
            fx_base: "USD"@,
            fx_rates: Map::empty(),
            providers: Seq::empty(),
            sources: Seq::empty(),
        }
    }

    /// Whether the user configured nothing at all.
    pub fn is_empty(&self) -> (r: bool)
        ensures
            r == (self@.providers.len() == 0 && self@.fx_rates == Map::<Seq<char>, Rate>::empty()
                && self@.sources.len() == 0),
    {
        let none = self.fx_rates.is_empty();
        proof {
            let entries = coded(self.fx_rates@);
            if entries.len() > 0 {
                assert(rate_table(entries).contains_key(entries.last().0));
            }
        }
        self.providers.is_empty() && none && self.sources.is_empty()
    }
}

impl Default for PricingConfig {
    fn default() -> (r: Self)
        ensures
            r@ == PricingConfig::nothing(),
    {
        let r = PricingConfig {
            fx_base: Currency::usd(),
            fx_rates: Vec::new(),
            providers: Vec::new(),
            sources: Vec::new(),
        };
        assert(r@ =~= PricingConfig::nothing());
        r
    }
}

/// Cards, tariffs and tiers agree where each of their rates has the same value,
/// or neither has it, and the rest is the same.
pub proof fn agreement_is_rate_by_rate(a: CostFields, b: CostFields, x: Rate, y: Rate, n: u64, m: u64)
    ensures
        ({
            let same = |p: Option<Rate>, q: Option<Rate>|
                p is Some == q is Some && (p is Some ==> p->Some_0.equals(q->Some_0));
            let cards = same(a.input, b.input) && same(a.output, b.output) && same(
                a.cache_read,
                b.cache_read,
            ) && same(a.cache_write, b.cache_write);
            &&& a.agrees(b) <==> cards
            &&& Tariff::Absolute(a).agrees(Tariff::Absolute(b)) <==> cards
            &&& Tariff::Multiplier(x).agrees(Tariff::Multiplier(y)) <==> x.equals(y)
            &&& !Tariff::Absolute(a).agrees(Tariff::Multiplier(y))
            &&& !Tariff::Multiplier(x).agrees(Tariff::Absolute(b))
            &&& (ContextTier { min_input_tokens: n, tariff: Tariff::Absolute(a) }).agrees(
                (ContextTier { min_input_tokens: m, tariff: Tariff::Absolute(b) }),
            ) <==> n == m && cards
        }),
{
}

/// A card without rates has none of the four, and one that prices a call has the
/// input and the output rate.
pub proof fn card_prices_with_input_and_output(card: CostFields)
    ensures
        CostFields::none().input is None,
        CostFields::none().output is None,
        CostFields::none().cache_read is None,
        CostFields::none().cache_write is None,
        card.complete() <==> card.input is Some && card.output is Some,
{
}

/// A window whose end is before its start goes on past midnight.
pub proof fn window_wraps_when_it_ends_before_it_starts(window: TimeWindow)
    ensures
        window.wraps() <==> window.end.secs * 0x1_0000_0000 + window.end.nanos < window.start.secs
            * 0x1_0000_0000 + window.start.nanos,
{
    crate::clock::readings_are_ordered_by_time(window.end, window.start);
}

/// Without a section there is nothing but the dollar as the base.
pub proof fn empty_config_has_the_dollar_as_its_base()
    ensures
        PricingConfig::nothing().fx_base == seq!['U', 'S', 'D'],
        PricingConfig::nothing().fx_rates.dom().len() == 0,
        PricingConfig::nothing().providers.len() == 0,
        PricingConfig::nothing().sources.len() == 0,
{
    reveal_strlit("USD");
}

} // verus!
