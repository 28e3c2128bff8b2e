//! One model's price entry: the base rate card plus tariffs, schedule, tiers
//! and validity.
//!
//! A hand-written rule and a catalog entry have the same shape, so they can be
//! merged field by field. Currency is not a field: the layer that produced the
//! numbers states it.

use crate::clock::{Instant, Weekday};
use crate::config_types::OnRuleExpiry;
use crate::model;
use crate::rate::Rate;
use crate::rule_types::{
    ContextTier, CostFields, ModelPricingRule, RuleView, ScheduleRule, ScheduleView, Tariff,
    TimeWindow,
};
use crate::text;
use vstd::prelude::*;

verus! {

/// Per-model USD prices per million tokens.
#[derive(Debug, Clone, Copy, PartialEq, Eq, Structural)]
pub struct ModelCost {
    pub input_usd_per_mtok: Rate,
    pub output_usd_per_mtok: Rate,
    pub cache_read_usd_per_mtok: Option<Rate>,
    pub cache_write_usd_per_mtok: Option<Rate>,
}

impl ModelCost {
    /// The prices as a rate card.
    pub open spec fn card(self) -> CostFields {
        CostFields {
            input: Some(self.input_usd_per_mtok),
            output: Some(self.output_usd_per_mtok),
            cache_read: self.cache_read_usd_per_mtok,
            cache_write: self.cache_write_usd_per_mtok,
        }
    }

    pub fn to_card(&self) -> (r: CostFields)
        ensures
            r == self.card(),
    {
        CostFields {
            input: Some(self.input_usd_per_mtok),
            output: Some(self.output_usd_per_mtok),
            cache_read: self.cache_read_usd_per_mtok,
            cache_write: self.cache_write_usd_per_mtok,
        }
    }
}

/// A per-model rate card with room for the extension fields.
#[derive(Debug)]
pub struct ModelPricingEntry {
    /// Base rates per million tokens.
    pub cost: CostFields,
    /// Named rate cards: absolute prices or a multiplier on `cost`.
    pub tariffs: Vec<(String, Tariff)>,
    /// Time windows selecting a tariff, first match wins.
    pub schedule: Vec<ScheduleRule>,
    /// Long-context overlays, first match wins.
    pub context_tiers: Vec<ContextTier>,
    pub default_tariff: Option<String>,
    /// Inclusive lower bound; a card is not in effect before it.
    pub effective_from: Option<Instant>,
    /// Exclusive upper bound: from this instant on the card is not in effect.
    pub effective_until: Option<Instant>,
    /// What to do once the card is out of effect.
    pub on_rule_expiry: OnRuleExpiry,
}

#[verifier::ext_equal]
pub struct EntryView {
    pub cost: CostFields,
    pub tariffs: Seq<(Seq<char>, Tariff)>,
    pub schedule: Seq<ScheduleView>,
    pub context_tiers: Seq<ContextTier>,
    pub default_tariff: Option<Seq<char>>,
    pub effective_from: Option<Instant>,
    pub effective_until: Option<Instant>,
    pub on_rule_expiry: OnRuleExpiry,
}

impl View for ModelPricingEntry {
    type V = EntryView;

    open spec fn view(&self) -> EntryView {
        EntryView {
            cost: self.cost,
            tariffs: model::keyed(self.tariffs@),
            schedule: model::seq_view(self.schedule@),
            context_tiers: self.context_tiers@,
            default_tariff: model::opt_view(self.default_tariff),
            effective_from: self.effective_from,
            effective_until: self.effective_until,
            on_rule_expiry: self.on_rule_expiry,
        }
    }
}

/// The entry that states a rate card and nothing else.
pub open spec fn bare_entry(cost: CostFields) -> EntryView {
    EntryView {
        cost,
        tariffs: Seq::empty(),
        schedule: Seq::empty(),
        context_tiers: Seq::empty(),
        default_tariff: None,
        effective_from: None,
        effective_until: None,
        on_rule_expiry: OnRuleExpiry::unset(),
    }
}

/// The entry that a validated rule amounts to.
pub open spec fn rule_entry(rule: RuleView) -> EntryView {
    EntryView {
        cost: match rule.cost {
            Some(cost) => cost,
            None => CostFields::none(),
        },
        tariffs: rule.tariffs,
        schedule: rule.schedule,
        context_tiers: rule.context_tiers,
        default_tariff: rule.default_tariff,
        effective_from: rule.effective_from,
        effective_until: rule.effective_until,
        on_rule_expiry: rule.on_rule_expiry,
    }
}

/// Why a rule's validity window does not cover an instant.
#[derive(Debug, Clone, Copy, PartialEq, Eq, Structural)]
pub enum RuleOutOfEffect {
    /// `effective_until` has passed.
    Expired,
    /// `effective_from` has not been reached yet.
    NotYetEffective,
}

impl RuleOutOfEffect {
    pub open spec fn words(self) -> Seq<char> {
        match self {
            RuleOutOfEffect::Expired => "rule expired"@,
            RuleOutOfEffect::NotYetEffective => "rule not in effect yet"@,
        }
    }

    /// The short marker shown next to a price that a lower layer produced
    /// because this rule was out of effect.
    pub fn label(self) -> (r: &'static str)
        ensures
            r@ == self.words(),
    {
        match self {
            RuleOutOfEffect::Expired => "rule expired",
            RuleOutOfEffect::NotYetEffective => "rule not in effect yet",
        }
    }
}

/// Why a validity window does not cover `at`: before its start it is not open
/// yet, and from its end on it has expired.
pub open spec fn out_of_effect(
    from: Option<Instant>,
    until: Option<Instant>,
    at: Instant,
) -> Option<RuleOutOfEffect> {
    if from is Some && at.earlier(from->Some_0) {
        Some(RuleOutOfEffect::NotYetEffective)
    } else if until is Some && !at.earlier(until->Some_0) {
        Some(RuleOutOfEffect::Expired)
    } else {
        None
    }
}

impl EntryView {
    pub open spec fn out_of_effect(self, at: Instant) -> Option<RuleOutOfEffect> {
        out_of_effect(self.effective_from, self.effective_until, at)
    }

    pub open spec fn active(self, at: Instant) -> bool {
        self.out_of_effect(at) is None
    }

    /// The flat card, where both base rates are known.
    pub open spec fn flat(self) -> Option<ModelCost> {
        if self.cost.complete() {
            Some(
                ModelCost {
                    input_usd_per_mtok: self.cost.input->Some_0,
                    output_usd_per_mtok: self.cost.output->Some_0,
                    cache_read_usd_per_mtok: self.cost.cache_read,
                    cache_write_usd_per_mtok: self.cost.cache_write,
                },
            )
        } else {
            None
        }
    }
}

/// The validity window takes in its start and leaves out its end.
pub proof fn validity_is_half_open(from: Instant, until: Instant)
    requires
        from.earlier(until),
    ensures
        out_of_effect(Some(from), Some(until), from) is None,
        out_of_effect(Some(from), Some(until), until) == Some(RuleOutOfEffect::Expired),
        forall|at: Instant|
            at.earlier(from) ==> #[trigger] out_of_effect(Some(from), Some(until), at) == Some(
                RuleOutOfEffect::NotYetEffective,
            ),
        forall|at: Instant|
            (#[trigger] out_of_effect(Some(from), Some(until), at) is None) == (!at.earlier(from)
                && at.earlier(until)),
{
}

/// An entry is in effect from its start on and before its end, and a bound that
/// is not stated does not bound it. Out of effect, it says on which side.
pub proof fn entry_is_in_effect_between_its_bounds(entry: EntryView, at: Instant)
    ensures
        ({
            let now = at.secs * 0x1_0000_0000 + at.nanos;
            let begun = entry.effective_from is Some ==> entry.effective_from->Some_0.secs
                * 0x1_0000_0000 + entry.effective_from->Some_0.nanos <= now;
            let over = entry.effective_until is Some && entry.effective_until->Some_0.secs
                * 0x1_0000_0000 + entry.effective_until->Some_0.nanos <= now;
            &&& entry.active(at) <==> begun && !over
            &&& !begun <==> entry.out_of_effect(at) == Some(RuleOutOfEffect::NotYetEffective)
            &&& begun && over <==> entry.out_of_effect(at) == Some(RuleOutOfEffect::Expired)
        }),
{
}

/// An entry keeps everything that its rule states, and the card of a rule that
/// states no rates is empty.
pub proof fn entry_keeps_what_its_rule_states(rule: RuleView)
    ensures
        ({
            let made = rule_entry(rule);
            &&& rule.cost is Some ==> made.cost == rule.cost->Some_0
            &&& rule.cost is None ==> made.cost.input is None && made.cost.output is None
                && made.cost.cache_read is None && made.cost.cache_write is None
            &&& made.tariffs == rule.tariffs
            &&& made.schedule == rule.schedule
            &&& made.context_tiers == rule.context_tiers
            &&& made.default_tariff == rule.default_tariff
            &&& made.effective_from == rule.effective_from
            &&& made.effective_until == rule.effective_until
            &&& made.on_rule_expiry == rule.on_rule_expiry
        }),
{
}

/// A copy of a list of plain values.
pub fn copy_plain<T: Copy>(values: &Vec<T>) -> (r: Vec<T>)
    ensures
        r@ == values@,
{
    let mut out: Vec<T> = Vec::new();
    let mut i: usize = 0;
    while i < values.len()
        invariant
            i <= values@.len(),
            out@ == values@.take(i as int),
        decreases values.len() - i,
    {
        out.push(values[i]);
        i += 1;
    }
    out
}

fn copy_tariffs(values: &Vec<(String, Tariff)>) -> (r: Vec<(String, Tariff)>)
    ensures
        model::keyed(r@) == model::keyed(values@),
{
    let mut out: Vec<(String, Tariff)> = Vec::new();
    let mut i: usize = 0;
    while i < values.len()
        invariant
            i <= values@.len(),
            out@.len() == i,
            forall|k: int|
                0 <= k < i ==> (#[trigger] out@[k]).0@ == values@[k].0@ && out@[k].1
                    == values@[k].1,
        decreases values.len() - i,
    {
        out.push((values[i].0.clone(), values[i].1));
        i += 1;
    }
    assert(model::keyed(out@) =~= model::keyed(values@));
    out
}

impl Clone for ScheduleRule {
    fn clone(&self) -> (r: Self)
        ensures
            r@ == self@,
    {
        ScheduleRule {
            tariff: self.tariff.clone(),
            utc_offset_minutes: self.utc_offset_minutes,
            weekdays: copy_plain(&self.weekdays),
            windows: copy_plain(&self.windows),
        }
    }
}

fn copy_schedule(values: &Vec<ScheduleRule>) -> (r: Vec<ScheduleRule>)
    ensures
        model::seq_view(r@) == model::seq_view(values@),
{
    let mut out: Vec<ScheduleRule> = Vec::new();
    let mut i: usize = 0;
    while i < values.len()
        invariant
            i <= values@.len(),
            out@.len() == i,
            forall|k: int| 0 <= k < i ==> (#[trigger] out@[k])@ == values@[k]@,
        decreases values.len() - i,
    {
        out.push(values[i].clone());
        i += 1;
    }
    assert(model::seq_view(out@) =~= model::seq_view(values@));
    out
}

impl Clone for ModelPricingEntry {
    fn clone(&self) -> (r: Self)
        ensures
            r@ == self@,
    {
        ModelPricingEntry {
            cost: self.cost,
            tariffs: copy_tariffs(&self.tariffs),
            schedule: copy_schedule(&self.schedule),
            context_tiers: copy_plain(&self.context_tiers),
            default_tariff: model::copy_text(&self.default_tariff),
            effective_from: self.effective_from,
            effective_until: self.effective_until,
            on_rule_expiry: self.on_rule_expiry,
        }
    }
}

impl ModelPricingEntry {
    /// The entry that states `cost` and nothing else.
    pub fn from_cost(cost: CostFields) -> (r: Self)
        ensures
            r@ == bare_entry(cost),
    {
        let r = ModelPricingEntry {
            cost,
            tariffs: Vec::new(),
            schedule: Vec::new(),
            context_tiers: Vec::new(),
            default_tariff: None,
            effective_from: None,
            effective_until: None,
            on_rule_expiry: OnRuleExpiry::default(),
        };
        assert(r@ =~= bare_entry(cost));
        r
    }

    /// A bare catalog entry: rates only, every extension field empty.
    pub fn from_model_cost(cost: ModelCost) -> (r: Self)
        ensures
            r@ == bare_entry(cost.card()),
    {
        ModelPricingEntry::from_cost(cost.to_card())
    }

    /// A validated `[pricing.providers]` rule.
    pub fn from_rule(rule: &ModelPricingRule) -> (r: Self)
        ensures
            r@ == rule_entry(rule@),
    {
        ModelPricingEntry {
            cost: match rule.cost {
                Some(cost) => cost,
                None => CostFields::empty(),
            },
            tariffs: copy_tariffs(&rule.tariffs),
            schedule: copy_schedule(&rule.schedule),
            context_tiers: copy_plain(&rule.context_tiers),
            default_tariff: model::copy_text(&rule.default_tariff),
            effective_from: rule.effective_from,
            effective_until: rule.effective_until,
            on_rule_expiry: rule.on_rule_expiry,
        }
    }

    /// The rate card as the flat catalog type, if both base rates are known.
    pub fn to_model_cost(&self) -> (r: Option<ModelCost>)
        ensures
            r == self@.flat(),
    {
        match (self.cost.input, self.cost.output) {
            (Some(input), Some(output)) => Some(
                ModelCost {
                    input_usd_per_mtok: input,
                    output_usd_per_mtok: output,
                    cache_read_usd_per_mtok: self.cost.cache_read,
                    cache_write_usd_per_mtok: self.cost.cache_write,
                },
            ),
            _ => None,
        }
    }

    /// Why this card is not in effect at `at`, or `None` when it is.
    pub fn out_of_effect_reason(&self, at: Instant) -> (r: Option<RuleOutOfEffect>)
        ensures
            r == self@.out_of_effect(at),
    {
        if let Some(from) = self.effective_from {
            if at.is_before(from) {
                return Some(RuleOutOfEffect::NotYetEffective);
            }
        }
        if let Some(until) = self.effective_until {
            if !at.is_before(until) {
                return Some(RuleOutOfEffect::Expired);
            }
        }
        None
    }

    /// Whether this card's validity window covers `at`.
    pub fn is_active_at(&self, at: Instant) -> (r: bool)
        ensures
            r == self@.active(at),
    {
        self.out_of_effect_reason(at).is_none()
    }
}

/// Whether a list of tariffs has one of this name that states the same values.
pub open spec fn has_tariff(tariffs: Seq<(Seq<char>, Tariff)>, wanted: (Seq<char>, Tariff)) -> bool {
    exists|j: int|
        0 <= j < tariffs.len() && (#[trigger] tariffs[j]).0 == wanted.0 && wanted.1.agrees(
            tariffs[j].1,
        )
}

/// Whether two lists of tariffs name the same ones with the same values,
/// whatever their order.
pub open spec fn tariffs_agree(a: Seq<(Seq<char>, Tariff)>, b: Seq<(Seq<char>, Tariff)>) -> bool {
    a.len() == b.len() && forall|i: int| 0 <= i < a.len() ==> has_tariff(b, #[trigger] a[i])
}

/// Whether the list has this tariff, looking at `near` first.
fn find_tariff(tariffs: &Vec<(String, Tariff)>, name: &str, tariff: &Tariff, near: usize) -> (r: bool)
    ensures
        r == has_tariff(model::keyed(tariffs@), (name@, *tariff)),
{
    let ghost all = model::keyed(tariffs@);
    if near < tariffs.len() && text::same(tariffs[near].0.as_str(), name) && tariff.same(
        &tariffs[near].1,
    ) {
        assert(all[near as int] == (name@, tariffs@[near as int].1));
        return true;
    }
    let mut j: usize = 0;
    while j < tariffs.len()
        invariant
            j <= tariffs@.len(),
            all == model::keyed(tariffs@),
            forall|k: int|
                0 <= k < j ==> !((#[trigger] all[k]).0 == name@ && tariff.agrees(all[k].1)),
        decreases tariffs.len() - j,
    {
        if text::same(tariffs[j].0.as_str(), name) && tariff.same(&tariffs[j].1) {
            assert(all[j as int] == (name@, tariffs@[j as int].1));
            return true;
        }
        j += 1;
    }
    false
}

fn same_tariffs(a: &Vec<(String, Tariff)>, b: &Vec<(String, Tariff)>) -> (r: bool)
    ensures
        r == tariffs_agree(model::keyed(a@), model::keyed(b@)),
{
    let ghost x = model::keyed(a@);
    let ghost y = model::keyed(b@);
    if a.len() != b.len() {
        return false;
    }
    let mut i: usize = 0;
    while i < a.len()
        invariant
            i <= a@.len(),
            a@.len() == b@.len(),
            x == model::keyed(a@),
            y == model::keyed(b@),
            forall|k: int| 0 <= k < i ==> has_tariff(y, #[trigger] x[k]),
        decreases a.len() - i,
    {
        assert(x[i as int] == (a@[i as int].0@, a@[i as int].1));
        if !find_tariff(b, a[i].0.as_str(), &a[i].1, i) {
            return false;
        }
        i += 1;
    }
    true
}

fn same_weekdays(a: &Vec<Weekday>, b: &Vec<Weekday>) -> (r: bool)
    ensures
        r == (a@ == b@),
{
    if a.len() != b.len() {
        return false;
    }
    let mut i: usize = 0;
    while i < a.len()
        invariant
            i <= a@.len(),
            a@.len() == b@.len(),
            forall|k: int| 0 <= k < i ==> a@[k] == b@[k],
        decreases a.len() - i,
    {
        if a[i] != b[i] {
            return false;
        }
        i += 1;
    }
    assert(a@ =~= b@);
    true
}

fn same_windows(a: &Vec<TimeWindow>, b: &Vec<TimeWindow>) -> (r: bool)
    ensures
        r == (a@ == b@),
{
    if a.len() != b.len() {
        return false;
    }
    let mut i: usize = 0;
    while i < a.len()
        invariant
            i <= a@.len(),
            a@.len() == b@.len(),
            forall|k: int| 0 <= k < i ==> a@[k] == b@[k],
        decreases a.len() - i,
    {
        if a[i] != b[i] {
            return false;
        }
        i += 1;
    }
    assert(a@ =~= b@);
    true
}

/// Whether two lists of tiers state the same, tier for tier.
pub open spec fn tiers_agree(a: Seq<ContextTier>, b: Seq<ContextTier>) -> bool {
    a.len() == b.len() && forall|i: int|
        0 <= i < a.len() ==> (#[trigger] a[i]).agrees(b[i])
}

fn same_tiers(a: &Vec<ContextTier>, b: &Vec<ContextTier>) -> (r: bool)
    ensures
        r == tiers_agree(a@, b@),
{
    if a.len() != b.len() {
        return false;
    }
    let mut i: usize = 0;
    while i < a.len()
        invariant
            i <= a@.len(),
            a@.len() == b@.len(),
            forall|k: int| 0 <= k < i ==> (#[trigger] a@[k]).agrees(b@[k]),
        decreases a.len() - i,
    {
        if !a[i].same(&b[i]) {
            assert(!a@[i as int].agrees(b@[i as int]));
            return false;
        }
        i += 1;
    }
    true
}

impl ScheduleRule {
    /// Whether two schedule rules say the same.
    pub fn same(&self, other: &ScheduleRule) -> (r: bool)
        ensures
            r == (self@ == other@),
    {
        let same = text::same(self.tariff.as_str(), other.tariff.as_str())
            && self.utc_offset_minutes == other.utc_offset_minutes && same_weekdays(
            &self.weekdays,
            &other.weekdays,
        ) && same_windows(&self.windows, &other.windows);
        same
    }
}

fn same_schedules(a: &Vec<ScheduleRule>, b: &Vec<ScheduleRule>) -> (r: bool)
    ensures
        r == (model::seq_view(a@) == model::seq_view(b@)),
{
    if a.len() != b.len() {
        assert(model::seq_view(a@).len() != model::seq_view(b@).len());
        return false;
    }
    let mut i: usize = 0;
    while i < a.len()
        invariant
            i <= a@.len(),
            a@.len() == b@.len(),
            forall|k: int| 0 <= k < i ==> model::seq_view(a@)[k] == model::seq_view(b@)[k],
        decreases a.len() - i,
    {
        if !a[i].same(&b[i]) {
            assert(model::seq_view(a@)[i as int] != model::seq_view(b@)[i as int]);
            return false;
        }
        i += 1;
    }
    assert(model::seq_view(a@) =~= model::seq_view(b@));
    true
}

fn same_text(a: &Option<String>, b: &Option<String>) -> (r: bool)
    ensures
        r == (model::opt_view(*a) == model::opt_view(*b)),
{
    match (a, b) {
        (Some(x), Some(y)) => text::same(x.as_str(), y.as_str()),
        (None, None) => true,
        _ => false,
    }
}

impl EntryView {
    /// The entries say the same: rates by their values, the rest word for word.
    pub open spec fn agrees(self, other: EntryView) -> bool {
        &&& self.cost.agrees(other.cost)
        &&& tariffs_agree(self.tariffs, other.tariffs)
        &&& self.schedule == other.schedule
        &&& tiers_agree(self.context_tiers, other.context_tiers)
        &&& self.default_tariff == other.default_tariff
        &&& self.effective_from == other.effective_from
        &&& self.effective_until == other.effective_until
        &&& self.on_rule_expiry == other.on_rule_expiry
    }
}

impl ModelPricingEntry {
    /// Whether two entries say the same.
    pub fn same(&self, other: &ModelPricingEntry) -> (r: bool)
        ensures
            r == self@.agrees(other@),
    {
        self.cost.same(&other.cost) && same_tariffs(&self.tariffs, &other.tariffs) && same_schedules(
            &self.schedule,
            &other.schedule,
        ) && same_tiers(&self.context_tiers, &other.context_tiers) && same_text(
            &self.default_tariff,
            &other.default_tariff,
        ) && self.effective_from == other.effective_from && self.effective_until
            == other.effective_until && self.on_rule_expiry == other.on_rule_expiry
    }
}

/// A flat card that became an entry is the same card again.
pub proof fn model_cost_round_trips(cost: ModelCost)
    ensures
        bare_entry(cost.card()).flat() == Some(cost),
{
}

/// Entries agree where their cards do, each tariff of the one has one of the
/// same name that agrees, each tier has its counterpart in the same place, and
/// all that is not a rate is the same.
pub proof fn entries_agree_part_by_part(a: EntryView, b: EntryView, places: Seq<int>)
    requires
        a.cost.agrees(b.cost),
        a.tariffs.len() == b.tariffs.len(),
        places.len() == a.tariffs.len(),
        forall|i: int|
            0 <= i < a.tariffs.len() ==> 0 <= places[i] < b.tariffs.len()
                && b.tariffs[places[i]].0 == (#[trigger] a.tariffs[i]).0
                && a.tariffs[i].1.agrees(b.tariffs[places[i]].1),
        a.context_tiers.len() == b.context_tiers.len(),
        forall|i: int|
            0 <= i < a.context_tiers.len() ==> (#[trigger] a.context_tiers[i]).agrees(
                b.context_tiers[i],
            ),
        a.schedule == b.schedule,
        a.default_tariff == b.default_tariff,
        a.effective_from == b.effective_from,
        a.effective_until == b.effective_until,
        a.on_rule_expiry == b.on_rule_expiry,
    ensures
        a.agrees(b),
{
    assert forall|i: int| 0 <= i < a.tariffs.len() implies has_tariff(
        b.tariffs,
        #[trigger] a.tariffs[i],
    ) by {
        assert(b.tariffs[places[i]].0 == a.tariffs[i].0);
    }
}

/// Entries that agree are alike in every part: where one part differs, they do
/// not agree.
pub proof fn agreeing_entries_are_alike(a: EntryView, b: EntryView, i: int)
    requires
        a.agrees(b),
    ensures
        a.cost.agrees(b.cost),
        a.tariffs.len() == b.tariffs.len(),
        0 <= i < a.tariffs.len() ==> exists|j: int|
            0 <= j < b.tariffs.len() && (#[trigger] b.tariffs[j]).0 == a.tariffs[i].0
                && a.tariffs[i].1.agrees(b.tariffs[j].1),
        a.context_tiers.len() == b.context_tiers.len(),
        0 <= i < a.context_tiers.len() ==> a.context_tiers[i].agrees(b.context_tiers[i]),
        a.schedule == b.schedule,
        a.default_tariff == b.default_tariff,
        a.effective_from == b.effective_from,
        a.effective_until == b.effective_until,
        a.on_rule_expiry == b.on_rule_expiry,
{
    if 0 <= i < a.tariffs.len() {
        assert(has_tariff(b.tariffs, a.tariffs[i]));
    }
}

/// What a card says is what its entry says, rate by rate; an entry that lacks an
/// input or an output rate has no flat card.
pub proof fn flat_card_is_rate_by_rate(entry: EntryView, card: ModelCost)
    ensures
        entry.flat() == Some(card) <==> {
            &&& entry.cost.input == Some(card.input_usd_per_mtok)
            &&& entry.cost.output == Some(card.output_usd_per_mtok)
            &&& entry.cost.cache_read == card.cache_read_usd_per_mtok
            &&& entry.cost.cache_write == card.cache_write_usd_per_mtok
        },
        entry.flat() is None <==> entry.cost.input is None || entry.cost.output is None,
{
}

/// An entry of nothing but rates has those rates, and is always in effect.
pub proof fn bare_entry_has_its_rates_only(cost: CostFields, at: Instant)
    ensures
        bare_entry(cost).cost == cost,
        bare_entry(cost).tariffs.len() == 0,
        bare_entry(cost).schedule.len() == 0,
        bare_entry(cost).context_tiers.len() == 0,
        bare_entry(cost).default_tariff is None,
        bare_entry(cost).active(at),
        bare_entry(cost).on_rule_expiry == OnRuleExpiry::Fallback,
{
}

} // verus!
