//! The `[pricing]` section as it is written, before validation.
//!
//! Every field is optional. Maps are lists of entries in the order of their
//! keys. A number keeps the text it prints as, for messages about it.

use crate::model;
use crate::rate::Rate;
use vstd::prelude::*;

verus! {

/// What to do when a model's `effective_until` has passed.
#[derive(Debug, Clone, Copy, PartialEq, Eq, Structural)]
pub enum OnRuleExpiry {
    /// Fall back to the next layer and label the rule as expired.
    Fallback,
    /// Refuse to price at all rather than fall back to a worse estimate.
    NoPrice,
}

impl OnRuleExpiry {
    /// What an unset value means.
    pub open spec fn unset() -> OnRuleExpiry {
        OnRuleExpiry::Fallback
    }
}

impl Default for OnRuleExpiry {
    fn default() -> (r: Self)
        ensures
            r == OnRuleExpiry::unset(),
    {
        OnRuleExpiry::Fallback
    }
}

/// A written number and the text it prints as.
#[derive(Debug, Clone)]
pub struct Number {
    pub rate: Rate,
    pub text: String,
}

pub struct NumberView {
    pub rate: Rate,
    pub text: Seq<char>,
}

impl View for Number {
    type V = NumberView;

    open spec fn view(&self) -> NumberView {
        NumberView { rate: self.rate, text: self.text@ }
    }
}

/// A named rate card: either absolute prices or a multiplier on the base cost.
#[derive(Debug, Clone)]
pub struct TariffFile {
    pub input: Option<Number>,
    pub output: Option<Number>,
    pub cache_read: Option<Number>,
    pub cache_write: Option<Number>,
    /// Multiplier applied to the model's base `cost`.
    pub multiplier: Option<Number>,
}

pub struct TariffFileView {
    pub input: Option<NumberView>,
    pub output: Option<NumberView>,
    pub cache_read: Option<NumberView>,
    pub cache_write: Option<NumberView>,
    pub multiplier: Option<NumberView>,
}

impl View for TariffFile {
    type V = TariffFileView;

    open spec fn view(&self) -> TariffFileView {
        TariffFileView {
            input: model::opt_view(self.input),
            output: model::opt_view(self.output),
            cache_read: model::opt_view(self.cache_read),
            cache_write: model::opt_view(self.cache_write),
            multiplier: model::opt_view(self.multiplier),
        }
    }
}

/// The base price of a model, in the provider's currency.
#[derive(Debug, Clone)]
pub struct CostFile {
    pub input: Option<Number>,
    pub output: Option<Number>,
    pub cache_read: Option<Number>,
    pub cache_write: Option<Number>,
}

pub struct CostFileView {
    pub input: Option<NumberView>,
    pub output: Option<NumberView>,
    pub cache_read: Option<NumberView>,
    pub cache_write: Option<NumberView>,
}

impl View for CostFile {
    type V = CostFileView;

    open spec fn view(&self) -> CostFileView {
        CostFileView {
            input: model::opt_view(self.input),
            output: model::opt_view(self.output),
            cache_read: model::opt_view(self.cache_read),
            cache_write: model::opt_view(self.cache_write),
        }
    }
}

/// One `schedule` entry: when these windows hit, use this tariff.
#[derive(Debug, Clone)]
pub struct ScheduleRuleFile {
    pub tariff: String,
    /// Fixed UTC offset in minutes.
    pub utc_offset_minutes: i32,
    /// Names of weekdays; empty means every day.
    pub weekdays: Vec<String>,
    /// Start and end of each window in local (offset-shifted) time.
    pub windows: Vec<(String, String)>,
}

pub struct ScheduleRuleFileView {
    pub tariff: Seq<char>,
    pub utc_offset_minutes: i32,
    pub weekdays: Seq<Seq<char>>,
    pub windows: Seq<(Seq<char>, Seq<char>)>,
}

impl View for ScheduleRuleFile {
    type V = ScheduleRuleFileView;

    open spec fn view(&self) -> ScheduleRuleFileView {
        ScheduleRuleFileView {
            tariff: self.tariff@,
            utc_offset_minutes: self.utc_offset_minutes,
            weekdays: model::seq_view(self.weekdays@),
            windows: model::keyed_view(self.windows@),
        }
    }
}

/// One `context_tiers` entry: above this many input tokens, use these rates.
#[derive(Debug, Clone)]
pub struct ContextTierFile {
    /// The tier applies when a call reports more than this many input tokens.
    pub min_input_tokens: Option<u64>,
    pub input: Option<Number>,
    pub output: Option<Number>,
    pub cache_read: Option<Number>,
    pub cache_write: Option<Number>,
    /// Multiplier applied to the rate card the schedule already selected.
    pub multiplier: Option<Number>,
}

pub struct ContextTierFileView {
    pub min_input_tokens: Option<u64>,
    pub tariff: TariffFileView,
}

impl View for ContextTierFile {
    type V = ContextTierFileView;

    open spec fn view(&self) -> ContextTierFileView {
        ContextTierFileView {
            min_input_tokens: self.min_input_tokens,
            tariff: TariffFileView {
                input: model::opt_view(self.input),
                output: model::opt_view(self.output),
                cache_read: model::opt_view(self.cache_read),
                cache_write: model::opt_view(self.cache_write),
                multiplier: model::opt_view(self.multiplier),
            },
        }
    }
}

/// Rate rules for a single model.
#[derive(Debug, Clone)]
pub struct ModelPricingRuleFile {
    pub cost: Option<CostFile>,
    pub tariffs: Vec<(String, TariffFile)>,
    pub schedule: Vec<ScheduleRuleFile>,
    /// Long-context overlays, matched in declaration order, first match wins.
    pub context_tiers: Vec<ContextTierFile>,
    pub default_tariff: Option<String>,
    pub effective_from: Option<String>,
    pub effective_until: Option<String>,
    pub on_rule_expiry: Option<OnRuleExpiry>,
}

pub struct ModelPricingRuleFileView {
    pub cost: Option<CostFileView>,
    pub tariffs: Seq<(Seq<char>, TariffFileView)>,
    pub schedule: Seq<ScheduleRuleFileView>,
    pub context_tiers: Seq<ContextTierFileView>,
    pub default_tariff: Option<Seq<char>>,
    pub effective_from: Option<Seq<char>>,
    pub effective_until: Option<Seq<char>>,
    pub on_rule_expiry: Option<OnRuleExpiry>,
}

impl View for ModelPricingRuleFile {
    type V = ModelPricingRuleFileView;

    open spec fn view(&self) -> ModelPricingRuleFileView {
        ModelPricingRuleFileView {
            cost: model::opt_view(self.cost),
            tariffs: model::keyed_view(self.tariffs@),
            schedule: model::seq_view(self.schedule@),
            context_tiers: model::seq_view(self.context_tiers@),
            default_tariff: model::opt_view(self.default_tariff),
            effective_from: model::opt_view(self.effective_from),
            effective_until: model::opt_view(self.effective_until),
            on_rule_expiry: self.on_rule_expiry,
        }
    }
}

/// Rate rules for a single provider.
#[derive(Debug, Clone)]
pub struct ProviderPricingFile {
    /// Default currency for this provider's rules; USD when absent.
    pub currency: Option<String>,
    /// A local file that states further rules for this vendor's models.
    pub file: Option<String>,
    pub models: Vec<(String, ModelPricingRuleFile)>,
}

pub struct ProviderPricingFileView {
    pub currency: Option<Seq<char>>,
    pub file: Option<Seq<char>>,
    pub models: Seq<(Seq<char>, ModelPricingRuleFileView)>,
}

impl View for ProviderPricingFile {
    type V = ProviderPricingFileView;

    open spec fn view(&self) -> ProviderPricingFileView {
        ProviderPricingFileView {
            currency: model::opt_view(self.currency),
            file: model::opt_view(self.file),
            models: model::keyed_view(self.models@),
        }
    }
}

/// One `[[pricing.sources]]` entry: an extra price sheet in a local file.
#[derive(Debug, Clone)]
pub struct PricingSourceFile {
    /// Stable identity of this source; derived from the file when absent.
    pub id: Option<String>,
    /// The local file the sheet is read from.
    pub file: String,
    /// Which provider identities this sheet may price; empty means all.
    pub scope: Vec<String>,
    /// Model globs this sheet may price; empty means every model.
    pub models: Vec<String>,
    /// Sheet schema.
    pub format: Option<String>,
    /// Lower wins among sources; ties break on `id`.
    pub priority: Option<i64>,
    /// Currency of the sheet's numbers; USD when absent.
    pub currency: Option<String>,
}

pub struct PricingSourceFileView {
    pub id: Option<Seq<char>>,
    pub file: Seq<char>,
    pub scope: Seq<Seq<char>>,
    pub models: Seq<Seq<char>>,
    pub format: Option<Seq<char>>,
    pub priority: Option<i64>,
    pub currency: Option<Seq<char>>,
}

impl View for PricingSourceFile {
    type V = PricingSourceFileView;

    open spec fn view(&self) -> PricingSourceFileView {
        PricingSourceFileView {
            id: model::opt_view(self.id),
            file: self.file@,
            scope: model::seq_view(self.scope@),
            models: model::seq_view(self.models@),
            format: model::opt_view(self.format),
            priority: self.priority,
            currency: model::opt_view(self.currency),
        }
    }
}

/// `[pricing]`: hand-written rate rules, which outrank every other source.
#[derive(Debug, Clone)]
pub struct PricingConfigFile {
    /// Base currency for `fx_rates`; USD when absent.
    pub fx_base: Option<String>,
    /// `1 fx_base = N <code>`.
    pub fx_rates: Vec<(String, Number)>,
    pub providers: Vec<(String, ProviderPricingFile)>,
    /// Extra price sheets, below `providers` and above models.dev.
    pub sources: Vec<PricingSourceFile>,
}

pub struct PricingConfigFileView {
    pub fx_base: Option<Seq<char>>,
    pub fx_rates: Seq<(Seq<char>, NumberView)>,
    pub providers: Seq<(Seq<char>, ProviderPricingFileView)>,
    pub sources: Seq<PricingSourceFileView>,
}

impl View for PricingConfigFile {
    type V = PricingConfigFileView;

    open spec fn view(&self) -> PricingConfigFileView {
        PricingConfigFileView {
            fx_base: model::opt_view(self.fx_base),
            fx_rates: model::keyed_view(self.fx_rates@),
            providers: model::keyed_view(self.providers@),
            sources: model::seq_view(self.sources@),
        }
    }
}

impl PricingConfigFile {
    /// Whether the user configured no rate rules at all.
    pub fn is_empty(&self) -> (r: bool)
        ensures
            r == (self@.providers.len() == 0 && self@.fx_rates.len() == 0 && self@.fx_base is None
                && self@.sources.len() == 0),
    {
        self.providers.is_empty() && self.fx_rates.is_empty() && self.fx_base.is_none()
            && self.sources.is_empty()
    }
}

/// A rule that does not say what happens once it is out of effect falls back to
/// the next layer.
pub proof fn unset_expiry_falls_back()
    ensures
        OnRuleExpiry::unset() == OnRuleExpiry::Fallback,
        OnRuleExpiry::unset() != OnRuleExpiry::NoPrice,
{
}

} // verus!
