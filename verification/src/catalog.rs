//! The models.dev catalog: its document, its cache, and lookups in it.
//!
//! A price sheet of the user's own has the same shape, and may state tariffs,
//! schedules, tiers and validity in the vocabulary of a hand-written rule. A
//! model whose further fields make no valid rule keeps the rates it states.

use crate::entry;
use crate::entry::{EntryView, ModelCost, ModelPricingEntry};
use crate::json;
use crate::json::Json;
use crate::model;
use crate::pricing_config;
use crate::providers;
use crate::providers::{NamesView, VendorNames};
use crate::rate::Rate;
use crate::rule_types::{ContextTier, CostFields, RuleView, Tariff};
use crate::text;
use vstd::prelude::*;

verus! {

/// Version of the cache file that is written.
pub const SCHEMA_VERSION: u32 = 2;

/// Seconds after which the catalog is fetched again.
pub const CACHE_TTL_SECS: u64 = 86_400;

/// The input tokens above which models.dev's long-context rates apply.
pub const LONG_CONTEXT_TOKENS: u64 = 200_000;

/// The priced models of one provider, by id.
#[derive(Debug, Clone)]
pub struct ModelTable {
    pub models: Vec<(String, ModelPricingEntry)>,
}

impl View for ModelTable {
    type V = Seq<(Seq<char>, EntryView)>;

    open spec fn view(&self) -> Seq<(Seq<char>, EntryView)> {
        model::keyed_view(self.models@)
    }
}

impl ModelTable {
    /// Each model has one entry.
    pub open spec fn wf(self) -> bool {
        model::distinct_keys(self@)
    }
}

/// The priced models of every provider, by provider id.
#[derive(Debug, Clone)]
pub struct Sheet {
    pub providers: Vec<(String, ModelTable)>,
}

impl View for Sheet {
    type V = Seq<(Seq<char>, Seq<(Seq<char>, EntryView)>)>;

    open spec fn view(&self) -> Seq<(Seq<char>, Seq<(Seq<char>, EntryView)>)> {
        model::keyed_view(self.providers@)
    }
}

impl Sheet {
    /// Each provider has one table, and each model one entry in it.
    pub open spec fn wf(self) -> bool {
        model::distinct_keys(self@) && forall|i: int|
            0 <= i < self@.len() ==> model::distinct_keys((#[trigger] self@[i]).1)
    }
}

/// The catalog and when it was fetched.
#[derive(Debug, Clone)]
pub struct PricingCache {
    pub schema_version: u32,
    pub cached_at_unix_secs: u64,
    pub sheet: Sheet,
}

/// Whether the catalog has to be fetched (again).
pub open spec fn stale(cached_at: Option<u64>, now: u64) -> bool {
    match cached_at {
        Some(at) => now >= at && now - at >= CACHE_TTL_SECS,
        None => true,
    }
}

/// Whether a refresh is due: there is no copy, or it is a day old.
pub fn needs_refresh(cache: &Option<PricingCache>, now_unix_secs: u64) -> (r: bool)
    ensures
        r == stale(
            match *cache {
                Some(c) => Some(c.cached_at_unix_secs),
                None => None,
            },
            now_unix_secs,
        ),
{
    match cache {
        Some(c) => now_unix_secs >= c.cached_at_unix_secs && now_unix_secs - c.cached_at_unix_secs
            >= CACHE_TTL_SECS,
        None => true,
    }
}

/// Whether a background refresh may start: it is forced or not disabled, and
/// none is running.
pub fn may_start_refresh(forced: bool, disabled: bool, in_flight: bool) -> (r: bool)
    ensures
        r == ((forced || !disabled) && !in_flight),
{
    (forced || !disabled) && !in_flight
}

/// The entry of a model in a provider's table: under its normal id, else under
/// what follows its provider prefix.
pub open spec fn model_in(models: Seq<(Seq<char>, EntryView)>, model: Seq<char>) -> Option<
    EntryView,
> {
    let id = providers::normal_id(model);
    match model::get(models, id) {
        Some(entry) => Some(entry),
        None => match providers::unprefixed(id) {
            Some(bare) => model::get(models, bare),
            None => None,
        },
    }
}

impl ModelTable {
    /// The entry of a model.
    pub fn find_model<'a>(&'a self, model: &str) -> (r: Option<&'a ModelPricingEntry>)
        ensures
            match r {
                Some(entry) => model_in(self@, model@) == Some(entry@),
                None => model_in(self@, model@) is None,
            },
    {
        let id = providers::normalize_model_id(model);
        if let Some(entry) = model::find_view(&self.models, id.as_str()) {
            return Some(entry);
        }
        match providers::bare_model(id.as_str()) {
            Some(bare) => model::find_view(&self.models, bare.as_str()),
            None => None,
        }
    }
}

/// Whether a table has a model of this id whose entry says the same.
pub open spec fn has_model(
    models: Seq<(Seq<char>, EntryView)>,
    wanted: (Seq<char>, EntryView),
) -> bool {
    exists|j: int|
        0 <= j < models.len() && (#[trigger] models[j]).0 == wanted.0 && wanted.1.agrees(
            models[j].1,
        )
}

/// Whether two tables have the same models, with entries that say the same,
/// whatever their order.
pub open spec fn tables_agree(
    a: Seq<(Seq<char>, EntryView)>,
    b: Seq<(Seq<char>, EntryView)>,
) -> bool {
    a.len() == b.len() && forall|i: int| 0 <= i < a.len() ==> has_model(b, #[trigger] a[i])
}

impl ModelTable {
    /// Whether the table has this model with this entry, looking at `near` first.
    fn has_same(&self, id: &str, wanted: &ModelPricingEntry, near: usize) -> (r: bool)
        ensures
            r == has_model(self@, (id@, wanted@)),
    {
        if near < self.models.len() && text::same(self.models[near].0.as_str(), id) && wanted.same(
            &self.models[near].1,
        ) {
            assert(self@[near as int] == (id@, self.models@[near as int].1@));
            return true;
        }
        let mut j: usize = 0;
        while j < self.models.len()
            invariant
                j <= self.models@.len(),
                forall|k: int|
                    0 <= k < j ==> !((#[trigger] self@[k]).0 == id@ && wanted@.agrees(self@[k].1)),
            decreases self.models.len() - j,
        {
            if text::same(self.models[j].0.as_str(), id) && wanted.same(&self.models[j].1) {
                assert(self@[j as int] == (id@, self.models@[j as int].1@));
                return true;
            }
            j += 1;
        }
        false
    }

    /// Whether two tables say the same.
    pub fn same(&self, other: &ModelTable) -> (r: bool)
        ensures
            r == tables_agree(self@, other@),
    {
        if self.models.len() != other.models.len() {
            return false;
        }
        let mut i: usize = 0;
        while i < self.models.len()
            invariant
                i <= self.models@.len(),
                self.models@.len() == other.models@.len(),
                forall|k: int| 0 <= k < i ==> has_model(other@, #[trigger] self@[k]),
            decreases self.models.len() - i,
        {
            assert(self@[i as int] == (self.models@[i as int].0@, self.models@[i as int].1@));
            if !other.has_same(self.models[i].0.as_str(), &self.models[i].1, i) {
                return false;
            }
            i += 1;
        }
        true
    }
}

proof fn lemma_keys_in<V, W>(a: Seq<(Seq<char>, V)>, b: Seq<(Seq<char>, W)>, key: Seq<char>)
    requires
        a.len() == b.len(),
        model::distinct_keys(a),
        forall|i: int| 0 <= i < a.len() ==> model::has_key(b, (#[trigger] a[i]).0),
        model::has_key(b, key),
    ensures
        model::has_key(a, key),
{
    let x = a.map_values(|e: (Seq<char>, V)| e.0);
    let y = b.map_values(|e: (Seq<char>, W)| e.0);
    assert(x.no_duplicates()) by {
        assert forall|i: int, j: int| 0 <= i < x.len() && 0 <= j < x.len() && i != j implies x[i]
            != x[j] by {
            if i < j {
                assert(a[i].0 != a[j].0);
            } else {
                assert(a[j].0 != a[i].0);
            }
        }
    }
    x.unique_seq_to_set();
    vstd::seq_lib::seq_to_set_is_finite(x);
    vstd::seq_lib::seq_to_set_is_finite(y);
    y.lemma_cardinality_of_set();
    assert forall|k: Seq<char>| x.to_set().contains(k) implies y.to_set().contains(k) by {
        let i = choose|i: int| 0 <= i < x.len() && x[i] == k;
        assert(a[i].0 == k);
        model::lemma_index_from(b, k, 0);
        let j = model::index_from(b, k, 0)->Some_0;
        assert(y[j] == k);
    }
    assert(x.to_set().subset_of(y.to_set()));
    vstd::set_lib::lemma_len_subset(x.to_set(), y.to_set());
    vstd::set_lib::lemma_subset_equality(x.to_set(), y.to_set());
    model::lemma_index_from(b, key, 0);
    let j = model::index_from(b, key, 0)->Some_0;
    assert(y[j] == key);
    assert(y.to_set().contains(key));
    assert(x.to_set().contains(key));
    let i = choose|i: int| 0 <= i < x.len() && x[i] == key;
    assert(a[i].0 == key);
    model::lemma_index_from(a, key, 0);
}

proof fn lemma_agreeing_get(
    a: Seq<(Seq<char>, EntryView)>,
    b: Seq<(Seq<char>, EntryView)>,
    key: Seq<char>,
)
    requires
        model::distinct_keys(a),
        model::distinct_keys(b),
        tables_agree(a, b),
    ensures
        match model::get(a, key) {
            Some(found) => model::get(b, key) is Some && found.agrees(
                model::get(b, key)->Some_0,
            ),
            None => model::get(b, key) is None,
        },
{
    assert forall|i: int| 0 <= i < a.len() implies model::has_key(b, (#[trigger] a[i]).0)
        && a[i].1.agrees(model::get(b, a[i].0)->Some_0) by {
        assert(has_model(b, a[i]));
        let j = choose|j: int|
            0 <= j < b.len() && (#[trigger] b[j]).0 == a[i].0 && a[i].1.agrees(b[j].1);
        json::lemma_distinct_get(b, j);
    }
    model::lemma_index_from(a, key, 0);
    if model::get(a, key) is None && model::get(b, key) is Some {
        lemma_keys_in(a, b, key);
    }
    if model::get(a, key) is Some {
        let i = model::index_from(a, key, 0)->Some_0;
        assert(a[i].0 == key);
    }
}

/// Two tables that say the same answer alike for every model: both have no
/// entry, or their entries say the same.
pub proof fn agreeing_tables_answer_alike(
    a: Seq<(Seq<char>, EntryView)>,
    b: Seq<(Seq<char>, EntryView)>,
    model: Seq<char>,
)
    requires
        model::distinct_keys(a),
        model::distinct_keys(b),
        tables_agree(a, b),
    ensures
        match model_in(a, model) {
            Some(found) => model_in(b, model) is Some && found.agrees(model_in(b, model)->Some_0),
            None => model_in(b, model) is None,
        },
{
    let id = providers::normal_id(model);
    lemma_agreeing_get(a, b, id);
    if let Some(bare) = providers::unprefixed(id) {
        lemma_agreeing_get(a, b, bare);
    }
}

/// Whether a sheet has a provider of this id whose table says the same.
pub open spec fn has_table(
    sheet: Seq<(Seq<char>, Seq<(Seq<char>, EntryView)>)>,
    wanted: (Seq<char>, Seq<(Seq<char>, EntryView)>),
) -> bool {
    exists|j: int|
        0 <= j < sheet.len() && (#[trigger] sheet[j]).0 == wanted.0 && tables_agree(
            wanted.1,
            sheet[j].1,
        )
}

/// Whether two sheets have the same providers, with tables that say the same,
/// whatever their order.
pub open spec fn sheets_agree(
    a: Seq<(Seq<char>, Seq<(Seq<char>, EntryView)>)>,
    b: Seq<(Seq<char>, Seq<(Seq<char>, EntryView)>)>,
) -> bool {
    a.len() == b.len() && forall|i: int| 0 <= i < a.len() ==> has_table(b, #[trigger] a[i])
}

impl Sheet {
    /// Whether the sheet has this provider with this table, looking at `near`
    /// first.
    fn has_same(&self, id: &str, wanted: &ModelTable, near: usize) -> (r: bool)
        ensures
            r == has_table(self@, (id@, wanted@)),
    {
        if near < self.providers.len() && text::same(self.providers[near].0.as_str(), id)
            && wanted.same(&self.providers[near].1) {
            assert(self@[near as int] == (id@, self.providers@[near as int].1@));
            return true;
        }
        let mut j: usize = 0;
        while j < self.providers.len()
            invariant
                j <= self.providers@.len(),
                forall|k: int|
                    0 <= k < j ==> !((#[trigger] self@[k]).0 == id@ && tables_agree(
                        wanted@,
                        self@[k].1,
                    )),
            decreases self.providers.len() - j,
        {
            if text::same(self.providers[j].0.as_str(), id) && wanted.same(&self.providers[j].1) {
                assert(self@[j as int] == (id@, self.providers@[j as int].1@));
                return true;
            }
            j += 1;
        }
        false
    }

    /// Whether two sheets say the same.
    pub fn same(&self, other: &Sheet) -> (r: bool)
        ensures
            r == sheets_agree(self@, other@),
    {
        if self.providers.len() != other.providers.len() {
            return false;
        }
        let mut i: usize = 0;
        while i < self.providers.len()
            invariant
                i <= self.providers@.len(),
                self.providers@.len() == other.providers@.len(),
                forall|k: int| 0 <= k < i ==> has_table(other@, #[trigger] self@[k]),
            decreases self.providers.len() - i,
        {
            assert(self@[i as int] == (self.providers@[i as int].0@, self.providers@[i as int].1@));
            if !other.has_same(self.providers[i].0.as_str(), &self.providers[i].1, i) {
                return false;
            }
            i += 1;
        }
        true
    }
}

/// The catalog's entry for a model of a provider.
pub open spec fn entry_in(
    sheet: Seq<(Seq<char>, Seq<(Seq<char>, EntryView)>)>,
    provider: Seq<char>,
    model: Seq<char>,
    names: NamesView,
) -> Option<EntryView> {
    match providers::dev_id(provider, names) {
        None => None,
        Some(id) => match model::get(sheet, id) {
            None => None,
            Some(models) => model_in(models, model),
        },
    }
}

/// The catalog's entry, where there is a catalog.
pub open spec fn entry_in_cache(
    cache: Option<PricingCache>,
    provider: Seq<char>,
    model: Seq<char>,
    names: NamesView,
) -> Option<EntryView> {
    match cache {
        Some(c) => entry_in(c.sheet@, provider, model, names),
        None => None,
    }
}

/// The catalog's entry for `model` under a provider key.
pub fn lookup_entry<'a>(
    cache: &'a Option<PricingCache>,
    provider: &str,
    model: &str,
    names: &VendorNames,
) -> (r: Option<&'a ModelPricingEntry>)
    ensures
        match r {
            Some(entry) => entry_in_cache(*cache, provider@, model@, names@) == Some(entry@),
            None => entry_in_cache(*cache, provider@, model@, names@) is None,
        },
{
    let id = match providers::models_dev_provider_id(provider, names) {
        Some(id) => id,
        None => {
            return None;
        },
    };
    match cache {
        None => None,
        Some(c) => match model::find_view(&c.sheet.providers, id) {
            None => None,
            Some(table) => table.find_model(model),
        },
    }
}

/// The catalog's prices, as far as both of a model's base rates are known.
pub open spec fn cost_in_cache(
    cache: Option<PricingCache>,
    provider: Seq<char>,
    model: Seq<char>,
    names: NamesView,
) -> Option<ModelCost> {
    match entry_in_cache(cache, provider, model, names) {
        Some(entry) => entry.flat(),
        None => None,
    }
}

/// Look up pricing for `model` under a provider key. `None` when the catalog
/// has no entry.
pub fn lookup(
    cache: &Option<PricingCache>,
    jcode_provider: &str,
    model: &str,
    names: &VendorNames,
) -> (r: Option<ModelCost>)
    ensures
        r == cost_in_cache(*cache, jcode_provider@, model@, names@),
{
    match lookup_entry(cache, jcode_provider, model, names) {
        Some(entry) => entry.to_model_cost(),
        None => None,
    }
}

/// The number in a field, where there is one.
pub open spec fn number_at(json: Json, key: Seq<char>) -> Option<Rate> {
    match json::field(json, key) {
        Some(Json::Number(n)) => Some(n.float.rate),
        _ => None,
    }
}

fn rate_at(value: &serde_json::Value, key: &str) -> (r: Option<Rate>)
    ensures
        r == number_at(json::json_tree(*value), key@),
{
    match json::json_field(value, key) {
        Some(v) => match json::json_number(v) {
            Some(n) => Some(n.rate),
            None => None,
        },
        None => None,
    }
}

/// The rates that an object states.
pub open spec fn rates_at(json: Json) -> CostFields {
    CostFields {
        input: number_at(json, "input"@),
        output: number_at(json, "output"@),
        cache_read: number_at(json, "cache_read"@),
        cache_write: number_at(json, "cache_write"@),
    }
}

fn card_at(value: &serde_json::Value) -> (r: CostFields)
    ensures
        r == rates_at(json::json_tree(*value)),
{
    CostFields {
        input: rate_at(value, "input"),
        output: rate_at(value, "output"),
        cache_read: rate_at(value, "cache_read"),
        cache_write: rate_at(value, "cache_write"),
    }
}

/// models.dev's own long-context rates, as a tier; an object that states no
/// rate makes none.
pub open spec fn native_tiers(cost: Json) -> Seq<ContextTier> {
    match json::field(cost, "context_over_200k"@) {
        Some(over) => if over is Object && rates_at(over) != CostFields::none() {
            seq![
                ContextTier {
                    min_input_tokens: LONG_CONTEXT_TOKENS,
                    tariff: Tariff::Absolute(rates_at(over)),
                },
            ]
        } else {
            Seq::empty()
        },
        None => Seq::empty(),
    }
}

/// The tier of a `cost` object's `context_over_200k` rates.
pub fn context_over_200k_tier(cost: &serde_json::Value) -> (r: Option<ContextTier>)
    ensures
        native_tiers(json::json_tree(*cost)) == match r {
            Some(tier) => seq![tier],
            None => Seq::empty(),
        },
{
    let over = match json::json_field(cost, "context_over_200k") {
        Some(over) => over,
        None => {
            return None;
        },
    };
    if json::json_keys(over).is_none() {
        return None;
    }
    let fields = card_at(over);
    if fields.input.is_none() && fields.output.is_none() && fields.cache_read.is_none()
        && fields.cache_write.is_none() {
        return None;
    }
    Some(ContextTier { min_input_tokens: LONG_CONTEXT_TOKENS, tariff: Tariff::Absolute(fields) })
}

/// The entry that a rule and a rate card make, with further tiers behind the
/// rule's own.
pub open spec fn extended_entry(cost: CostFields, rule: RuleView, tiers: Seq<ContextTier>) -> EntryView {
    EntryView { cost, context_tiers: rule.context_tiers + tiers, ..entry::rule_entry(rule) }
}

/// Whether a model of a document states both base rates.
pub open spec fn priced(json: Json) -> bool {
    json::field(json, "cost"@) is Some && rates_at(json::field(json, "cost"@)->Some_0).complete()
}

/// The entry that a rate card makes, with its own long-context tiers and
/// nothing else.
pub open spec fn plain_entry(cost: CostFields, tiers: Seq<ContextTier>) -> EntryView {
    EntryView { context_tiers: tiers, ..entry::bare_entry(cost) }
}

/// A model of a document, where it states both base rates. What it states beyond
/// them counts where it makes a valid rule as a whole; otherwise the rates stand
/// alone.
pub open spec fn model_of(json: Json) -> Option<EntryView> {
    if !priced(json) {
        None
    } else {
        let cost = json::field(json, "cost"@)->Some_0;
        Some(
            match json::extension_read(json) {
                Err(_) => plain_entry(rates_at(cost), native_tiers(cost)),
                Ok(file) => match pricing_config::rule_of(file, Seq::empty()) {
                    Err(_) => plain_entry(rates_at(cost), native_tiers(cost)),
                    Ok(rule) => extended_entry(rates_at(cost), rule, native_tiers(cost)),
                },
            },
        )
    }
}

/// The entry of a rate card with what a model states beyond it, before the
/// card's own long-context tiers.
fn read_extended(value: &serde_json::Value, card: CostFields) -> (r: ModelPricingEntry)
    ensures
        r@ == match json::extension_read(json::json_tree(*value)) {
            Err(_) => entry::bare_entry(card),
            Ok(file) => match pricing_config::rule_of(file, Seq::empty()) {
                Err(_) => entry::bare_entry(card),
                Ok(rule) => extended_entry(card, rule, Seq::empty()),
            },
        },
{
    let file = match json::read_extension(value) {
        Ok(file) => file,
        Err(_) => {
            return ModelPricingEntry::from_cost(card);
        },
    };
    let root = String::new();
    assert(root@ =~= Seq::empty());
    match pricing_config::convert_rule(&file, root.as_str()) {
        Ok(rule) => {
            let mut out = ModelPricingEntry::from_rule(&rule);
            out.cost = card;
            assert(out@ =~= extended_entry(card, rule@, Seq::empty()));
            out
        },
        Err(_) => ModelPricingEntry::from_cost(card),
    }
}

fn read_model(value: &serde_json::Value) -> (r: Option<ModelPricingEntry>)
    ensures
        model::opt_view(r) == model_of(json::json_tree(*value)),
{
    let cost = match json::json_field(value, "cost") {
        Some(cost) => cost,
        None => {
            return None;
        },
    };
    let card = card_at(cost);
    if !card.is_complete() {
        return None;
    }
    let mut out = read_extended(value, card);
    let ghost before = out@;
    let ghost tiers = native_tiers(json::json_tree(*cost));
    match context_over_200k_tier(cost) {
        Some(tier) => {
            out.context_tiers.push(tier);
        },
        None => {},
    }
    assert(out@ =~= EntryView { context_tiers: before.context_tiers + tiers, ..before });
    assert(out@ =~= model_of(json::json_tree(*value))->Some_0);
    Some(out)
}

/// The models among the first `n` entries that can be priced.
pub open spec fn models_of(entries: Seq<(Seq<char>, Json)>, n: int) -> Seq<(Seq<char>, EntryView)>
    decreases n,
{
    if n <= 0 {
        Seq::empty()
    } else {
        match model_of(entries[n - 1].1) {
            Some(entry) => models_of(entries, n - 1).push((entries[n - 1].0, entry)),
            None => models_of(entries, n - 1),
        }
    }
}

/// The models of a provider's object.
pub open spec fn provider_models(json: Json) -> Seq<(Seq<char>, EntryView)> {
    match json::field(json, "models"@) {
        Some(Json::Object(entries)) => models_of(entries, entries.len() as int),
        _ => Seq::empty(),
    }
}

/// A model that was read has an entry of its own.
proof fn lemma_model_keys(entries: Seq<(Seq<char>, Json)>, n: int)
    requires
        0 <= n <= entries.len(),
        model::distinct_keys(entries),
    ensures
        model::distinct_keys(models_of(entries, n)),
        forall|k: int, j: int|
            0 <= k < models_of(entries, n).len() && n <= j < entries.len() ==> (
            #[trigger] models_of(entries, n)[k]).0 != (#[trigger] entries[j]).0,
    decreases n,
{
    if n > 0 {
        lemma_model_keys(entries, n - 1);
        let before = models_of(entries, n - 1);
        let after = models_of(entries, n);
        assert forall|k: int, j: int|
            0 <= k < after.len() && n <= j < entries.len() implies (#[trigger] after[k]).0 != (
        #[trigger] entries[j]).0 by {
            if k < before.len() {
                assert(after[k] == before[k]);
            } else {
                assert(entries[n - 1].0 != entries[j].0);
            }
        }
        assert forall|i: int, j: int| 0 <= i < j < after.len() implies (#[trigger] after[i]).0 != (
        #[trigger] after[j]).0 by {
            assert(after[i] == before[i]);
            if j < before.len() {
                assert(after[j] == before[j]);
            } else {
                assert(before[i].0 != entries[n - 1].0);
            }
        }
    }
}

fn read_models(value: &serde_json::Value) -> (r: ModelTable)
    ensures
        r@ == provider_models(json::json_tree(*value)),
        r.wf(),
{
    let mut out: Vec<(String, ModelPricingEntry)> = Vec::new();
    assert(model::keyed_view(out@) =~= Seq::empty());
    let models = match json::json_field(value, "models") {
        Some(models) => models,
        None => {
            return ModelTable { models: out };
        },
    };
    let keys = match json::json_keys(models) {
        Some(keys) => keys,
        None => {
            return ModelTable { models: out };
        },
    };
    let ghost s = json::entries_of(json::json_tree(*models));
    let mut i: usize = 0;
    while i < keys.len()
        invariant
            i <= keys@.len(),
            s == json::entries_of(json::json_tree(*models)),
            keys@.len() == s.len(),
            forall|k: int| 0 <= k < keys@.len() ==> (#[trigger] keys@[k])@ == s[k].0,
            forall|a: int, b: int|
                0 <= a < b < keys@.len() ==> (#[trigger] keys@[a])@ != (#[trigger] keys@[b])@,
            model::keyed_view(out@) == models_of(s, i as int),
        decreases keys.len() - i,
    {
        proof {
            assert forall|a: int, b: int| 0 <= a < b < s.len() implies (#[trigger] s[a]).0 != (
            #[trigger] s[b]).0 by {
                assert(keys@[a]@ != keys@[b]@);
            }
            json::lemma_distinct_get(s, i as int);
            assert(keys@[i as int]@ == s[i as int].0);
        }
        let id = keys[i].as_str();
        if let Some(value) = json::json_field(models, id) {
            if let Some(entry) = read_model(value) {
                let ghost before = model::keyed_view(out@);
                out.push((text::owned(id), entry));
                assert(model::keyed_view(out@) =~= before.push((id@, entry@)));
            }
        }
        i += 1;
    }
    proof {
        assert forall|a: int, b: int| 0 <= a < b < s.len() implies (#[trigger] s[a]).0 != (
        #[trigger] s[b]).0 by {
            assert(keys@[a]@ != keys@[b]@);
        }
        lemma_model_keys(s, s.len() as int);
    }
    ModelTable { models: out }
}

/// The providers among the first `n` entries that have a priced model.
pub open spec fn providers_of(entries: Seq<(Seq<char>, Json)>, n: int) -> Seq<
    (Seq<char>, Seq<(Seq<char>, EntryView)>),
>
    decreases n,
{
    if n <= 0 {
        Seq::empty()
    } else {
        let models = provider_models(entries[n - 1].1);
        if models.len() == 0 {
            providers_of(entries, n - 1)
        } else {
            providers_of(entries, n - 1).push((entries[n - 1].0, models))
        }
    }
}

/// The sheet that a document is: an object of providers, of which at least one
/// has a priced model.
pub open spec fn sheet_of(json: Json) -> Result<
    Seq<(Seq<char>, Seq<(Seq<char>, EntryView)>)>,
    Seq<char>,
> {
    if !(json is Object) {
        Err("expected top-level provider object"@)
    } else {
        let entries = json::entries_of(json);
        let found = providers_of(entries, entries.len() as int);
        if found.len() == 0 {
            Err("no priced models in models.dev response"@)
        } else {
            Ok(found)
        }
    }
}

/// What reading a sheet gave.
pub open spec fn sheet_outcome(r: Result<Sheet, String>) -> Result<
    Seq<(Seq<char>, Seq<(Seq<char>, EntryView)>)>,
    Seq<char>,
> {
    match r {
        Ok(sheet) => Ok(sheet@),
        Err(message) => Err(message@),
    }
}

/// A provider that was read has a table of its own.
proof fn lemma_provider_keys(entries: Seq<(Seq<char>, Json)>, n: int)
    requires
        0 <= n <= entries.len(),
        model::distinct_keys(entries),
    ensures
        model::distinct_keys(providers_of(entries, n)),
        forall|k: int, j: int|
            0 <= k < providers_of(entries, n).len() && n <= j < entries.len() ==> (
            #[trigger] providers_of(entries, n)[k]).0 != (#[trigger] entries[j]).0,
    decreases n,
{
    if n > 0 {
        lemma_provider_keys(entries, n - 1);
        let before = providers_of(entries, n - 1);
        let after = providers_of(entries, n);
        assert forall|k: int, j: int|
            0 <= k < after.len() && n <= j < entries.len() implies (#[trigger] after[k]).0 != (
        #[trigger] entries[j]).0 by {
            if k < before.len() {
                assert(after[k] == before[k]);
            } else {
                assert(entries[n - 1].0 != entries[j].0);
            }
        }
        assert forall|i: int, j: int| 0 <= i < j < after.len() implies (#[trigger] after[i]).0 != (
        #[trigger] after[j]).0 by {
            assert(after[i] == before[i]);
            if j < before.len() {
                assert(after[j] == before[j]);
            } else {
                assert(before[i].0 != entries[n - 1].0);
            }
        }
    }
}

/// Read the sheet that a document is.
pub fn read_sheet(root: &serde_json::Value) -> (r: Result<Sheet, String>)
    ensures
        sheet_outcome(r) == sheet_of(json::json_tree(*root)),
        r is Ok ==> r->Ok_0.wf(),
{
    let keys = match json::json_keys(root) {
        Some(keys) => keys,
        None => {
            return Err(text::owned("expected top-level provider object"));
        },
    };
    let mut out: Vec<(String, ModelTable)> = Vec::new();
    assert(model::keyed_view(out@) =~= Seq::empty());
    let ghost s = json::entries_of(json::json_tree(*root));
    let mut i: usize = 0;
    while i < keys.len()
        invariant
            i <= keys@.len(),
            s == json::entries_of(json::json_tree(*root)),
            keys@.len() == s.len(),
            forall|k: int| 0 <= k < keys@.len() ==> (#[trigger] keys@[k])@ == s[k].0,
            forall|a: int, b: int|
                0 <= a < b < keys@.len() ==> (#[trigger] keys@[a])@ != (#[trigger] keys@[b])@,
            model::keyed_view(out@) == providers_of(s, i as int),
            forall|k: int| 0 <= k < out@.len() ==> (#[trigger] out@[k]).1.wf(),
        decreases keys.len() - i,
    {
        proof {
            assert forall|a: int, b: int| 0 <= a < b < s.len() implies (#[trigger] s[a]).0 != (
            #[trigger] s[b]).0 by {
                assert(keys@[a]@ != keys@[b]@);
            }
            json::lemma_distinct_get(s, i as int);
            assert(keys@[i as int]@ == s[i as int].0);
        }
        let id = keys[i].as_str();
        if let Some(value) = json::json_field(root, id) {
            let table = read_models(value);
            if table.models.len() > 0 {
                let ghost before = model::keyed_view(out@);
                out.push((text::owned(id), table));
                assert(model::keyed_view(out@) =~= before.push((id@, table@)));
            }
        }
        i += 1;
    }
    if out.len() == 0 {
        return Err(text::owned("no priced models in models.dev response"));
    }
    let sheet = Sheet { providers: out };
    proof {
        assert forall|a: int, b: int| 0 <= a < b < s.len() implies (#[trigger] s[a]).0 != (
        #[trigger] s[b]).0 by {
            assert(keys@[a]@ != keys@[b]@);
        }
        lemma_provider_keys(s, s.len() as int);
        assert forall|k: int| 0 <= k < sheet@.len() implies model::distinct_keys(
            (#[trigger] sheet@[k]).1,
        ) by {
            assert(sheet@[k].1 == sheet.providers@[k].1@);
            assert(sheet.providers@[k].1.wf());
        }
    }
    Ok(sheet)
}

/// What the text of a document amounts to.
pub open spec fn sheet_parsed(body: Seq<char>) -> Result<
    Seq<(Seq<char>, Seq<(Seq<char>, EntryView)>)>,
    Seq<char>,
> {
    match json::json_parsed(body) {
        Err(message) => Err(message),
        Ok(json) => sheet_of(json),
    }
}

/// Parse a document of models.dev's shape.
pub fn parse_api_response(body: &str) -> (r: Result<Sheet, String>)
    ensures
        sheet_outcome(r) == sheet_parsed(body@),
        r is Ok ==> r->Ok_0.wf(),
{
    match json::parse_json(body) {
        Ok(root) => read_sheet(&root),
        Err(message) => Err(message),
    }
}

/// The cache that a fetched document makes.
pub fn cache_response(body: &str, now_unix_secs: u64) -> (r: Result<PricingCache, String>)
    ensures
        match r {
            Ok(cache) => {
                &&& sheet_parsed(body@) == Ok::<
                    Seq<(Seq<char>, Seq<(Seq<char>, EntryView)>)>,
                    Seq<char>,
                >(cache.sheet@)
                &&& cache.schema_version == SCHEMA_VERSION
                &&& cache.cached_at_unix_secs == now_unix_secs
                &&& cache.sheet.wf()
            },
            Err(message) => sheet_parsed(body@) == Err::<
                Seq<(Seq<char>, Seq<(Seq<char>, EntryView)>)>,
                Seq<char>,
            >(message@),
        },
{
    match parse_api_response(body) {
        Ok(sheet) => Ok(
            PricingCache {
                schema_version: SCHEMA_VERSION,
                cached_at_unix_secs: now_unix_secs,
                sheet,
            },
        ),
        Err(message) => Err(message),
    }
}

/// A model is read exactly where it states both base rates, with exactly the
/// rates that it states, whatever else stands in it.
pub proof fn priced_model_is_read(model: Json)
    ensures
        model_of(model) is Some <==> priced(model),
        priced(model) ==> model_of(model)->Some_0.cost == rates_at(
            json::field(model, "cost"@)->Some_0,
        ),
{
}

/// Whether some of the models states both base rates.
pub open spec fn some_priced(models: Seq<(Seq<char>, Json)>) -> bool {
    exists|i: int| 0 <= i < models.len() && priced((#[trigger] models[i]).1)
}

/// Whether a provider's object has a model that states both base rates.
pub open spec fn prices_some(provider: Json) -> bool {
    match json::field(provider, "models"@) {
        Some(Json::Object(models)) => some_priced(models),
        _ => false,
    }
}

/// Whether one of the first `n` entries states both base rates and makes this
/// entry.
pub open spec fn stated_among(
    entries: Seq<(Seq<char>, Json)>,
    n: int,
    found: (Seq<char>, EntryView),
) -> bool {
    exists|j: int|
        0 <= j < n && (#[trigger] entries[j]).0 == found.0 && model_of(entries[j].1) == Some(found.1)
}

proof fn lemma_models_stated(entries: Seq<(Seq<char>, Json)>, n: int)
    requires
        n <= entries.len(),
    ensures
        forall|i: int|
            0 <= i < models_of(entries, n).len() ==> (#[trigger] models_of(
                entries,
                n,
            )[i]).1.cost.complete(),
        forall|j: int|
            0 <= j < n && priced((#[trigger] entries[j]).1) ==> models_of(entries, n).contains(
                (entries[j].0, model_of(entries[j].1)->Some_0),
            ),
        forall|i: int|
            0 <= i < models_of(entries, n).len() ==> stated_among(
                entries,
                n,
                #[trigger] models_of(entries, n)[i],
            ),
    decreases n,
{
    if n > 0 {
        lemma_models_stated(entries, n - 1);
        let before = models_of(entries, n - 1);
        let after = models_of(entries, n);
        assert forall|j: int| 0 <= j < n && priced((#[trigger] entries[j]).1) implies after.contains(
            (entries[j].0, model_of(entries[j].1)->Some_0),
        ) by {
            let wanted = (entries[j].0, model_of(entries[j].1)->Some_0);
            if j == n - 1 {
                assert(after[after.len() - 1] == wanted);
            } else {
                let k = before.index_of(wanted);
                assert(before.contains(wanted));
                assert(after[k] == wanted);
            }
        }
        assert forall|i: int| 0 <= i < after.len() implies stated_among(
            entries,
            n,
            #[trigger] after[i],
        ) by {
            if i < before.len() {
                assert(after[i] == before[i]);
                assert(stated_among(entries, n - 1, before[i]));
            } else {
                assert(priced(entries[n - 1].1));
            }
        }
    }
}

/// A provider has exactly those of its models that state both base rates.
pub proof fn provider_has_its_priced_models(
    provider: Json,
    models: Seq<(Seq<char>, Json)>,
    found: (Seq<char>, EntryView),
)
    requires
        json::field(provider, "models"@) == Some(Json::Object(models)),
    ensures
        provider_models(provider).contains(found) <==> stated_among(
            models,
            models.len() as int,
            found,
        ),
{
    lemma_models_stated(models, models.len() as int);
}

proof fn lemma_some_provider(entries: Seq<(Seq<char>, Json)>, n: int)
    requires
        n <= entries.len(),
    ensures
        providers_of(entries, n).len() > 0 <==> exists|i: int|
            0 <= i < n && prices_some((#[trigger] entries[i]).1),
    decreases n,
{
    if n > 0 {
        lemma_some_provider(entries, n - 1);
        let provider = entries[n - 1].1;
        assert(provider_models(provider).len() > 0 <==> prices_some(provider)) by {
            match json::field(provider, "models"@) {
                Some(Json::Object(models)) => {
                    lemma_models_stated(models, models.len() as int);
                    if some_priced(models) {
                        let i = choose|i: int|
                            0 <= i < models.len() && priced((#[trigger] models[i]).1);
                        assert(models_of(models, models.len() as int).contains(
                            (models[i].0, model_of(models[i].1)->Some_0),
                        ));
                    }
                    if models_of(models, models.len() as int).len() > 0 {
                        let first = models_of(models, models.len() as int)[0];
                        assert(stated_among(models, models.len() as int, first));
                    }
                },
                _ => {},
            }
        }
    }
}

/// A document is a sheet exactly where it is an object in which some provider
/// has a model that states both base rates.
pub proof fn sheet_is_read_where_a_model_is_priced(json: Json)
    ensures
        sheet_of(json) is Ok <==> json is Object && exists|i: int|
            0 <= i < json::entries_of(json).len() && prices_some(
                (#[trigger] json::entries_of(json)[i]).1,
            ),
{
    let entries = json::entries_of(json);
    lemma_some_provider(entries, entries.len() as int);
}

/// Every model of a provider in a sheet states both base rates.
pub proof fn sheet_models_are_complete(provider: Json)
    ensures
        forall|i: int|
            0 <= i < provider_models(provider).len() ==> (#[trigger] provider_models(
                provider,
            )[i]).1.cost.complete(),
{
    match json::field(provider, "models"@) {
        Some(Json::Object(entries)) => {
            lemma_models_stated(entries, entries.len() as int);
        },
        _ => {},
    }
}

/// The catalog is out of date once it is a day old. A copy from the future is
/// not, and no copy at all is.
pub proof fn catalog_is_out_of_date_after_a_day(fetched: u64, now: u64)
    ensures
        stale(Some(fetched), now) <==> now - fetched >= 24 * 60 * 60,
        stale(None, now),
{
}

/// A model is looked up under its id without marks, and under the bare name
/// behind the last slash only where that id has no entry.
pub proof fn full_id_goes_before_the_bare_name(
    models: Seq<(Seq<char>, EntryView)>,
    model: Seq<char>,
    i: int,
)
    requires
        0 <= i < models.len(),
    ensures
        ({
            let id = providers::normal_id(model);
            let first = forall|k: int| 0 <= k < i ==> (#[trigger] models[k]).0 != models[i].0;
            let full = exists|k: int| 0 <= k < models.len() && (#[trigger] models[k]).0 == id;
            &&& models[i].0 == id && first ==> model_in(models, model) == Some(models[i].1)
            &&& !full && first && providers::unprefixed(id) == Some(models[i].0) ==> model_in(
                models,
                model,
            ) == Some(models[i].1)
            &&& !full && providers::unprefixed(id) is None ==> model_in(models, model) is None
        }),
{
    let id = providers::normal_id(model);
    model::lemma_index_from(models, id, 0);
    model::lemma_index_from(models, models[i].0, 0);
}

/// A model that has an entry neither under its id nor under its bare name is
/// not found.
pub proof fn unlisted_model_is_not_found(models: Seq<(Seq<char>, EntryView)>, model: Seq<char>)
    requires
        forall|k: int|
            0 <= k < models.len() ==> (#[trigger] models[k]).0 != providers::normal_id(model)
                && providers::unprefixed(providers::normal_id(model)) != Some(models[k].0),
    ensures
        model_in(models, model) is None,
{
    let id = providers::normal_id(model);
    model::lemma_index_from(models, id, 0);
    if let Some(bare) = providers::unprefixed(id) {
        model::lemma_index_from(models, bare, 0);
        if let Some(i) = model::index_from(models, bare, 0) {
            assert(models[i].0 == bare);
        }
    }
    if let Some(i) = model::index_from(models, id, 0) {
        assert(models[i].0 == id);
    }
}

/// The catalog answers for a provider from the table under the provider's id,
/// and not at all for a provider without an id, an id without a table, and
/// without a copy.
pub proof fn catalog_answers_from_the_providers_table(
    cache: PricingCache,
    provider: Seq<char>,
    model: Seq<char>,
    names: NamesView,
    id: Seq<char>,
    i: int,
)
    requires
        providers::dev_id(provider, names) == Some(id),
    ensures
        0 <= i < cache.sheet@.len() && cache.sheet@[i].0 == id && (forall|k: int|
            0 <= k < i ==> (#[trigger] cache.sheet@[k]).0 != id) ==> entry_in_cache(
            Some(cache),
            provider,
            model,
            names,
        ) == model_in(cache.sheet@[i].1, model),
        (forall|k: int| 0 <= k < cache.sheet@.len() ==> (#[trigger] cache.sheet@[k]).0 != id)
            ==> entry_in_cache(Some(cache), provider, model, names) is None,
        entry_in_cache(None, provider, model, names) is None,
{
    model::lemma_index_from(cache.sheet@, id, 0);
}

/// A provider without an id has no entry in the catalog.
pub proof fn unlisted_provider_has_no_entry(
    cache: Option<PricingCache>,
    provider: Seq<char>,
    model: Seq<char>,
    names: NamesView,
)
    requires
        providers::dev_id(provider, names) is None,
    ensures
        entry_in_cache(cache, provider, model, names) is None,
        cost_in_cache(cache, provider, model, names) is None,
{
}

/// The catalog's flat card of a model has the four rates of its entry.
pub proof fn flat_card_has_the_entrys_rates(
    cache: Option<PricingCache>,
    provider: Seq<char>,
    model: Seq<char>,
    names: NamesView,
    entry: EntryView,
)
    requires
        entry_in_cache(cache, provider, model, names) == Some(entry),
    ensures
        match cost_in_cache(cache, provider, model, names) {
            Some(card) => {
                &&& entry.cost.input == Some(card.input_usd_per_mtok)
                &&& entry.cost.output == Some(card.output_usd_per_mtok)
                &&& entry.cost.cache_read == card.cache_read_usd_per_mtok
                &&& entry.cost.cache_write == card.cache_write_usd_per_mtok
            },
            None => entry.cost.input is None || entry.cost.output is None,
        },
{
}

/// Each rate of a card is the number under its own key; what is no number is no
/// rate.
pub proof fn rates_are_read_from_their_own_keys(json: Json)
    ensures
        ({
            let card = rates_at(json);
            let stated = |key: Seq<char>, rate: Option<Rate>|
                match rate {
                    Some(rate) => exists|n: json::JsonNumber| #[trigger]
                        json::member(json, key, Json::Number(n)) && n.float.rate == rate,
                    None => forall|n: json::JsonNumber|
                        !(#[trigger] json::member(json, key, Json::Number(n))),
                };
            &&& stated("input"@, card.input)
            &&& stated("output"@, card.output)
            &&& stated("cache_read"@, card.cache_read)
            &&& stated("cache_write"@, card.cache_write)
        }),
{
    json::field_is_the_member(json, "input"@);
    json::field_is_the_member(json, "output"@);
    json::field_is_the_member(json, "cache_read"@);
    json::field_is_the_member(json, "cache_write"@);
    if let Some(Json::Number(n)) = json::field(json, "input"@) {
        assert(json::member(json, "input"@, Json::Number(n)));
    }
    if let Some(Json::Number(n)) = json::field(json, "output"@) {
        assert(json::member(json, "output"@, Json::Number(n)));
    }
    if let Some(Json::Number(n)) = json::field(json, "cache_read"@) {
        assert(json::member(json, "cache_read"@, Json::Number(n)));
    }
    if let Some(Json::Number(n)) = json::field(json, "cache_write"@) {
        assert(json::member(json, "cache_write"@, Json::Number(n)));
    }
}

/// Rates for long contexts become one tier that begins at two hundred thousand
/// tokens, with those rates; without any there is no tier.
pub proof fn long_context_rates_are_one_tier(cost: Json, over: Json)
    ensures
        json::member(cost, "context_over_200k"@, over) && over is Object && (rates_at(
            over,
        ).input is Some || rates_at(over).output is Some || rates_at(over).cache_read is Some
            || rates_at(over).cache_write is Some) ==> {
            &&& native_tiers(cost).len() == 1
            &&& native_tiers(cost)[0].min_input_tokens == 200 * 1000
            &&& native_tiers(cost)[0].tariff == Tariff::Absolute(rates_at(over))
        },
        json::member(cost, "context_over_200k"@, over) && (!(over is Object) || (rates_at(
            over,
        ).input is None && rates_at(over).output is None && rates_at(over).cache_read is None
            && rates_at(over).cache_write is None)) ==> native_tiers(cost).len() == 0,
        json::lacks(cost, "context_over_200k"@) ==> native_tiers(cost).len() == 0,
{
    json::field_is_the_member(cost, "context_over_200k"@);
}

/// A model states a price when its card has an input and an output rate.
pub proof fn price_needs_both_base_rates(model: Json, cost: Json)
    ensures
        json::member(model, "cost"@, cost) ==> (priced(model) <==> rates_at(cost).input is Some
            && rates_at(cost).output is Some),
        json::lacks(model, "cost"@) ==> !priced(model),
{
    json::field_is_the_member(model, "cost"@);
}

/// A priced model with a valid extension has all that the extension states,
/// its own rates, and its tier for long contexts after the tiers that the
/// extension states.
pub proof fn extension_is_kept_with_the_models_own_rates(
    model: Json,
    cost: Json,
    file: crate::config_types::ModelPricingRuleFileView,
    rule: RuleView,
)
    requires
        json::member(model, "cost"@, cost),
        rates_at(cost).input is Some,
        rates_at(cost).output is Some,
        json::extension_read(model) == Ok::<_, ()>(file),
        pricing_config::rule_of(file, Seq::empty()) == Ok::<_, crate::rule_types::ErrorView>(rule),
    ensures
        model_of(model) is Some,
        ({
            let entry = model_of(model)->Some_0;
            &&& entry.cost == rates_at(cost)
            &&& entry.context_tiers == rule.context_tiers + native_tiers(cost)
            &&& entry.tariffs == rule.tariffs
            &&& entry.schedule == rule.schedule
            &&& entry.default_tariff == rule.default_tariff
            &&& entry.effective_from == rule.effective_from
            &&& entry.effective_until == rule.effective_until
            &&& entry.on_rule_expiry == rule.on_rule_expiry
        }),
{
    json::field_is_the_member(model, "cost"@);
}

/// A priced model whose extension is invalid has its own rates and its tier for
/// long contexts, and nothing else.
pub proof fn invalid_extension_is_dropped(model: Json, cost: Json)
    requires
        json::member(model, "cost"@, cost),
        rates_at(cost).input is Some,
        rates_at(cost).output is Some,
        json::extension_read(model) is Err || pricing_config::rule_of(
            json::extension_read(model)->Ok_0,
            Seq::empty(),
        ) is Err,
    ensures
        model_of(model) is Some,
        ({
            let entry = model_of(model)->Some_0;
            &&& entry.cost == rates_at(cost)
            &&& entry.context_tiers == native_tiers(cost)
            &&& entry.tariffs.len() == 0
            &&& entry.schedule.len() == 0
            &&& entry.default_tariff is None
            &&& entry.effective_from is None
            &&& entry.effective_until is None
            &&& entry.on_rule_expiry == crate::config_types::OnRuleExpiry::Fallback
        }),
{
    json::field_is_the_member(model, "cost"@);
}

/// The models of a provider stand in the order of the document, and those
/// without a price are left out.
pub proof fn models_stand_in_the_documents_order(
    front: Seq<(Seq<char>, Json)>,
    last: (Seq<char>, Json),
)
    ensures
        ({
            let all = front.push(last);
            let before = models_of(front, front.len() as int);
            &&& !priced(last.1) ==> models_of(all, all.len() as int) == before
            &&& priced(last.1) ==> models_of(all, all.len() as int) == before.push(
                (last.0, model_of(last.1)->Some_0),
            )
            &&& models_of(Seq::empty(), 0).len() == 0
        }),
{
    lemma_models_of_front(front, last, front.len() as int);
}

proof fn lemma_models_of_front(front: Seq<(Seq<char>, Json)>, last: (Seq<char>, Json), n: int)
    requires
        n <= front.len(),
    ensures
        models_of(front.push(last), n) == models_of(front, n),
        providers_of(front.push(last), n) == providers_of(front, n),
    decreases n,
{
    if n > 0 {
        lemma_models_of_front(front, last, n - 1);
        assert(front.push(last)[n - 1] == front[n - 1]);
    }
}

/// The providers of a document stand in its order, each with its models, and
/// those without a priced model are left out. A document in which none is left,
/// and one that is no object, is refused.
pub proof fn providers_stand_in_the_documents_order(
    front: Seq<(Seq<char>, Json)>,
    last: (Seq<char>, Json),
    json: Json,
)
    ensures
        ({
            let all = front.push(last);
            let before = providers_of(front, front.len() as int);
            &&& provider_models(last.1).len() == 0 ==> providers_of(all, all.len() as int) == before
            &&& provider_models(last.1).len() > 0 ==> providers_of(all, all.len() as int)
                == before.push((last.0, provider_models(last.1)))
            &&& providers_of(Seq::empty(), 0).len() == 0
        }),
        json is Object && providers_of(json->Object_0, json->Object_0.len() as int).len() > 0
            ==> sheet_of(json) == Ok::<_, Seq<char>>(
            providers_of(json->Object_0, json->Object_0.len() as int),
        ),
        json is Object && providers_of(json->Object_0, json->Object_0.len() as int).len() == 0
            ==> sheet_of(json) is Err && sheet_of(json)->Err_0
            == "no priced models in models.dev response"@,
        !(json is Object) ==> sheet_of(json) is Err && sheet_of(json)->Err_0
            == "expected top-level provider object"@,
{
    lemma_models_of_front(front, last, front.len() as int);
}

/// Tables that agree have as many models, each of which the other has under the
/// same id, with all that is not a rate word for word.
pub proof fn agreeing_tables_have_the_same_models(
    a: Seq<(Seq<char>, EntryView)>,
    b: Seq<(Seq<char>, EntryView)>,
    i: int,
)
    requires
        tables_agree(a, b),
        0 <= i < a.len(),
    ensures
        a.len() == b.len(),
        exists|j: int|
            0 <= j < b.len() && (#[trigger] b[j]).0 == a[i].0 && a[i].1.schedule == b[j].1.schedule
                && a[i].1.default_tariff == b[j].1.default_tariff && a[i].1.effective_from
                == b[j].1.effective_from && a[i].1.effective_until == b[j].1.effective_until
                && a[i].1.on_rule_expiry == b[j].1.on_rule_expiry && a[i].1.tariffs.len()
                == b[j].1.tariffs.len() && a[i].1.context_tiers.len()
                == b[j].1.context_tiers.len(),
{
    assert(has_model(b, a[i]));
    let j = choose|j: int|
        0 <= j < b.len() && (#[trigger] b[j]).0 == a[i].0 && a[i].1.agrees(b[j].1);
    assert(b[j].0 == a[i].0);
}

/// Sheets agree where they have as many providers, and each of the one has one
/// of the same id in the other with a table that agrees.
pub proof fn sheets_agree_provider_by_provider(
    a: Seq<(Seq<char>, Seq<(Seq<char>, EntryView)>)>,
    b: Seq<(Seq<char>, Seq<(Seq<char>, EntryView)>)>,
    places: Seq<int>,
)
    requires
        a.len() == b.len(),
        places.len() == a.len(),
        forall|i: int|
            0 <= i < a.len() ==> 0 <= places[i] < b.len() && b[places[i]].0 == (#[trigger] a[i]).0
                && tables_agree(a[i].1, b[places[i]].1),
    ensures
        sheets_agree(a, b),
{
    assert forall|i: int| 0 <= i < a.len() implies has_table(b, #[trigger] a[i]) by {
        assert(b[places[i]].0 == a[i].0);
    }
}

/// In sheets that agree each provider of the one has a table in the other that
/// agrees with its own, and sheets of different lengths do not agree.
pub proof fn agreeing_sheets_have_the_same_providers(
    a: Seq<(Seq<char>, Seq<(Seq<char>, EntryView)>)>,
    b: Seq<(Seq<char>, Seq<(Seq<char>, EntryView)>)>,
    i: int,
)
    requires
        sheets_agree(a, b),
        0 <= i < a.len(),
    ensures
        a.len() == b.len(),
        exists|j: int|
            0 <= j < b.len() && (#[trigger] b[j]).0 == a[i].0 && tables_agree(a[i].1, b[j].1),
{
    assert(has_table(b, a[i]));
}

/// A response that is no document is refused with the reader's message, and any
/// other is read as the sheet that it is.
pub proof fn response_is_read_as_a_sheet(body: Seq<char>)
    ensures
        json::json_parsed(body) matches Err(message) ==> sheet_parsed(body) is Err && sheet_parsed(
            body,
        )->Err_0 == message,
        json::json_parsed(body) matches Ok(json) ==> sheet_parsed(body) == sheet_of(json),
{
}

/// The copies of the catalog that are written have the second version.
pub proof fn catalog_copies_have_the_second_version()
    ensures
        SCHEMA_VERSION == 2,
{
}

} // verus!
