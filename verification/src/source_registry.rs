//! Extra `[[pricing.sources]]` price sheets, which sit between the user's own
//! `[pricing.providers]` cards and models.dev.
//!
//! * A copy of a sheet is fresh while its file is unchanged; a file that cannot
//!   be read is left alone for a while, so a broken source costs one attempt
//!   per window.
//! * A source never makes up a rate: whatever it has nothing to say about is
//!   priced by the next layer.
//! * The order is a property of the config: priority, then id.

use crate::catalog;
use crate::catalog::Sheet;
use crate::clock::Instant;
use crate::currency::Currency;
use crate::entry::{EntryView, ModelPricingEntry, RuleOutOfEffect};
use crate::file_cache;
use crate::file_cache::{CopyView, FileFingerprint, FileRegistry};
use crate::model;
use crate::providers;
use crate::providers::{NamesView, VendorNames};
use crate::rule_types::{CostFields, PricingSource, SourceView};
use crate::rules;
use crate::text;
use vstd::prelude::*;

verus! {

pub type SheetView = Seq<(Seq<char>, Seq<(Seq<char>, EntryView)>)>;

/// Whether a source's `scope` lets it price `source_key`; an empty one covers
/// every provider.
pub open spec fn scope_covers(
    scope: Seq<Seq<char>>,
    source_key: Seq<char>,
    names: NamesView,
) -> bool {
    scope.len() == 0 || exists|i: int|
        0 <= i < scope.len() && providers::same_provider(#[trigger] scope[i], source_key, names)
}

/// Whether a source's globs let it price `model`, by the id as it is or without
/// its local parts; an empty list covers every model.
pub open spec fn globs_cover(globs: Seq<Seq<char>>, model: Seq<char>) -> bool {
    globs.len() == 0 || exists|i: int|
        0 <= i < globs.len() && (providers::glob(#[trigger] globs[i], model) || providers::glob(
            globs[i],
            providers::normal_id(model),
        ))
}

pub fn covers_provider(source: &PricingSource, source_key: &str, names: &VendorNames) -> (r: bool)
    ensures
        r == scope_covers(source@.scope, source_key@, names@),
{
    if source.scope.len() == 0 {
        return true;
    }
    let ghost all = model::seq_view(source.scope@);
    let mut i: usize = 0;
    while i < source.scope.len()
        invariant
            i <= source.scope@.len(),
            all == model::seq_view(source.scope@),
            all.len() > 0,
            forall|k: int|
                0 <= k < i ==> !providers::same_provider(#[trigger] all[k], source_key@, names@),
        decreases source.scope.len() - i,
    {
        if providers::provider_key_matches(source.scope[i].as_str(), source_key, names) {
            assert(providers::same_provider(all[i as int], source_key@, names@));
            return true;
        }
        i += 1;
    }
    false
}

pub fn covers_model(source: &PricingSource, model: &str) -> (r: bool)
    ensures
        r == globs_cover(source@.models, model@),
{
    if source.models.len() == 0 {
        return true;
    }
    let ghost all = model::seq_view(source.models@);
    let normal = providers::normalize_model_id(model);
    let mut i: usize = 0;
    while i < source.models.len()
        invariant
            i <= source.models@.len(),
            all == model::seq_view(source.models@),
            all.len() > 0,
            normal@ == providers::normal_id(model@),
            forall|k: int|
                0 <= k < i ==> !(providers::glob(#[trigger] all[k], model@) || providers::glob(
                    all[k],
                    providers::normal_id(model@),
                )),
        decreases source.models.len() - i,
    {
        let glob = source.models[i].as_str();
        if providers::glob_matches(glob, model) || providers::glob_matches(glob, normal.as_str()) {
            assert(providers::glob(all[i as int], model@) || providers::glob(
                all[i as int],
                providers::normal_id(model@),
            ));
            return true;
        }
        i += 1;
    }
    false
}

/// The smallest of the keys of the first `n` entries that name the provider.
pub open spec fn smallest_key<V>(
    entries: Seq<(Seq<char>, V)>,
    source_key: Seq<char>,
    names: NamesView,
    n: int,
) -> Option<Seq<char>>
    decreases n,
{
    if n <= 0 {
        None
    } else {
        let best = smallest_key(entries, source_key, names, n - 1);
        let key = entries[n - 1].0;
        if providers::same_provider(key, source_key, names) && (best is None || text::before(
            key,
            best->Some_0,
        )) {
            Some(key)
        } else {
            best
        }
    }
}

/// Which of several matching sections prices a model does not depend on their
/// order: it is the one whose key comes first.
pub proof fn smallest_key_is_smallest<V>(
    entries: Seq<(Seq<char>, V)>,
    source_key: Seq<char>,
    names: NamesView,
    n: int,
)
    requires
        0 <= n <= entries.len(),
    ensures
        match smallest_key(entries, source_key, names, n) {
            Some(best) => {
                &&& exists|i: int| 0 <= i < n && (#[trigger] entries[i]).0 == best
                &&& providers::same_provider(best, source_key, names)
                &&& forall|i: int|
                    0 <= i < n && providers::same_provider((#[trigger] entries[i]).0, source_key, names)
                        ==> !text::before(entries[i].0, best)
            },
            None => forall|i: int|
                0 <= i < n ==> !providers::same_provider((#[trigger] entries[i]).0, source_key, names),
        },
    decreases n,
{
    if n > 0 {
        smallest_key_is_smallest(entries, source_key, names, n - 1);
        let key = entries[n - 1].0;
        let best = smallest_key(entries, source_key, names, n - 1);
        if providers::same_provider(key, source_key, names) && (best is None || text::before(
            key,
            best->Some_0,
        )) {
            text::lemma_before_irreflexive(key);
            assert forall|i: int|
                0 <= i < n && providers::same_provider(
                    (#[trigger] entries[i]).0,
                    source_key,
                    names,
                ) implies !text::before(entries[i].0, key) by {
                if i < n - 1 && text::before(entries[i].0, key) {
                    text::lemma_before_transitive(entries[i].0, key, best->Some_0);
                }
            }
            assert(entries[n - 1].0 == key);
        } else if best is Some {
            let i = choose|i: int| 0 <= i < n - 1 && (#[trigger] entries[i]).0 == best->Some_0;
            assert(entries[i].0 == best->Some_0);
        }
    }
}

/// The section of a sheet that belongs to a provider: the one under its own
/// key, else under its models.dev id, else under the smallest key that names
/// the same provider.
pub open spec fn section_in(
    sheet: SheetView,
    source_key: Seq<char>,
    names: NamesView,
) -> Option<Seq<(Seq<char>, EntryView)>> {
    if model::has_key(sheet, source_key) {
        model::get(sheet, source_key)
    } else if providers::dev_id(source_key, names) is Some && model::has_key(
        sheet,
        providers::dev_id(source_key, names)->Some_0,
    ) {
        model::get(sheet, providers::dev_id(source_key, names)->Some_0)
    } else {
        match smallest_key(sheet, source_key, names, sheet.len() as int) {
            Some(key) => model::get(sheet, key),
            None => None,
        }
    }
}

/// The entry that a sheet states for a provider's model.
pub open spec fn sheet_entry(
    sheet: SheetView,
    source_key: Seq<char>,
    model: Seq<char>,
    names: NamesView,
) -> Option<EntryView> {
    match section_in(sheet, source_key, names) {
        Some(models) => catalog::model_in(models, model),
        None => None,
    }
}

/// The provider section of a sheet that belongs to `source_key`.
pub fn sheet_provider<'a>(sheet: &'a Sheet, source_key: &str, names: &VendorNames) -> (r: Option<
    &'a catalog::ModelTable,
>)
    ensures
        match r {
            Some(table) => section_in(sheet@, source_key@, names@) == Some(table@),
            None => section_in(sheet@, source_key@, names@) is None,
        },
{
    if let Some(table) = model::find_view(&sheet.providers, source_key) {
        return Some(table);
    }
    if let Some(id) = providers::models_dev_provider_id(source_key, names) {
        if let Some(table) = model::find_view(&sheet.providers, id) {
            return Some(table);
        }
    }
    let ghost all = model::keyed_view(sheet.providers@);
    let mut best: Option<usize> = None;
    let mut i: usize = 0;
    while i < sheet.providers.len()
        invariant
            i <= sheet.providers@.len(),
            all == model::keyed_view(sheet.providers@),
            match best {
                Some(b) => b < i && smallest_key(all, source_key@, names@, i as int) == Some(
                    all[b as int].0,
                ),
                None => smallest_key(all, source_key@, names@, i as int) is None,
            },
        decreases sheet.providers.len() - i,
    {
        let key = sheet.providers[i].0.as_str();
        if providers::provider_key_matches(key, source_key, names) {
            let better: bool = match best {
                Some(b) => text::comes_before(key, sheet.providers[b].0.as_str()),
                None => true,
            };
            if better {
                best = Some(i);
            }
        }
        i += 1;
    }
    match best {
        Some(b) => model::find_view(&sheet.providers, sheet.providers[b].0.as_str()),
        None => None,
    }
}

/// The entry a sheet states for `(source_key, model)`.
pub fn entry_for<'a>(
    sheet: &'a Sheet,
    source_key: &str,
    model: &str,
    names: &VendorNames,
) -> (r: Option<&'a ModelPricingEntry>)
    ensures
        match r {
            Some(entry) => sheet_entry(sheet@, source_key@, model@, names@) == Some(entry@),
            None => sheet_entry(sheet@, source_key@, model@, names@) is None,
        },
{
    match sheet_provider(sheet, source_key, names) {
        Some(table) => table.find_model(model),
        None => None,
    }
}

/// What the source says about the pair: it covers it, its sheet can be used,
/// and the sheet states an entry.
pub open spec fn stated(
    source: SourceView,
    sheets: Seq<(Seq<char>, SheetView)>,
    source_key: Seq<char>,
    model: Seq<char>,
    names: NamesView,
) -> Option<EntryView> {
    if scope_covers(source.scope, source_key, names) && globs_cover(source.models, model) {
        match model::get(sheets, source.id) {
            Some(sheet) => sheet_entry(sheet, source_key, model, names),
            None => None,
        }
    } else {
        None
    }
}

fn stated_entry<'a>(
    source: &PricingSource,
    sheets: &'a Vec<(String, Sheet)>,
    source_key: &str,
    model: &str,
    names: &VendorNames,
) -> (r: Option<&'a ModelPricingEntry>)
    ensures
        match r {
            Some(entry) => stated(
                source@,
                model::keyed_view(sheets@),
                source_key@,
                model@,
                names@,
            ) == Some(entry@),
            None => stated(source@, model::keyed_view(sheets@), source_key@, model@, names@) is None,
        },
{
    if !covers_provider(source, source_key, names) || !covers_model(source, model) {
        return None;
    }
    match model::find_view(sheets, source.id.as_str()) {
        Some(sheet) => entry_for(sheet, source_key, model, names),
        None => None,
    }
}

/// The first card, with what it leaves unset taken from the second.
pub open spec fn filled(cost: CostFields, fallback: CostFields) -> CostFields {
    CostFields {
        input: rules::or_else(cost.input, fallback.input),
        output: rules::or_else(cost.output, fallback.output),
        cache_read: rules::or_else(cost.cache_read, fallback.cache_read),
        cache_write: rules::or_else(cost.cache_write, fallback.cache_write),
    }
}

/// Fill rate fields that a card leaves unset.
pub fn fill_missing_cost(cost: CostFields, fallback: CostFields) -> (r: CostFields)
    ensures
        r == filled(cost, fallback),
{
    CostFields {
        input: rules::first_of(cost.input, fallback.input),
        output: rules::first_of(cost.output, fallback.output),
        cache_read: rules::first_of(cost.cache_read, fallback.cache_read),
        cache_write: rules::first_of(cost.cache_write, fallback.cache_write),
    }
}

/// A field that a card states survives being filled.
pub proof fn written_field_wins(cost: CostFields, fallback: CostFields)
    ensures
        cost.input is Some ==> filled(cost, fallback).input == cost.input,
        cost.output is Some ==> filled(cost, fallback).output == cost.output,
        cost.cache_read is Some ==> filled(cost, fallback).cache_read == cost.cache_read,
        cost.cache_write is Some ==> filled(cost, fallback).cache_write == cost.cache_write,
        filled(filled(cost, fallback), fallback) == filled(cost, fallback),
{
}

/// The sheet that prices a pair, and its card.
#[derive(Debug)]
pub struct SourceHit {
    /// The `id` of the sheet that supplied the rates.
    pub source_id: String,
    pub entry: ModelPricingEntry,
    pub currency: Currency,
}

#[verifier::ext_equal]
pub struct HitView {
    pub source_id: Seq<char>,
    pub entry: EntryView,
    pub currency: Seq<char>,
}

impl View for SourceHit {
    type V = HitView;

    open spec fn view(&self) -> HitView {
        HitView { source_id: self.source_id@, entry: self.entry@, currency: self.currency@ }
    }
}

/// The pair that is to be priced.
pub struct Question {
    pub source_key: Seq<char>,
    pub model: Seq<char>,
    pub at: Instant,
    pub names: NamesView,
}

/// The answer so far, once one more source has been asked.
pub open spec fn hit_step(
    hit: Option<HitView>,
    source: SourceView,
    sheets: Seq<(Seq<char>, SheetView)>,
    question: Question,
) -> Option<HitView> {
    match stated(source, sheets, question.source_key, question.model, question.names) {
        Some(entry) => if !entry.active(question.at) {
            hit
        } else {
            match hit {
                None => Some(HitView { source_id: source.id, entry, currency: source.currency }),
                Some(first) => if first.currency == source.currency {
                    Some(
                        HitView {
                            entry: EntryView {
                                cost: filled(first.entry.cost, entry.cost),
                                ..first.entry
                            },
                            ..first
                        },
                    )
                } else {
                    Some(first)
                },
            }
        },
        None => hit,
    }
}

/// The answer of the first `n` sources: the first that states an entry in
/// effect puts forward its card, and later ones of the same currency fill in
/// what it leaves unset.
pub open spec fn hit_among(
    sources: Seq<SourceView>,
    sheets: Seq<(Seq<char>, SheetView)>,
    question: Question,
    n: int,
) -> Option<HitView>
    decreases n,
{
    if n <= 0 {
        None
    } else {
        hit_step(hit_among(sources, sheets, question, n - 1), sources[n - 1], sheets, question)
    }
}

/// Resolve the extra-source layer for `(source_key, model)`.
pub fn source_card(
    sources: &Vec<PricingSource>,
    sheets: &Vec<(String, Sheet)>,
    source_key: &str,
    model: &str,
    at: Instant,
    names: &VendorNames,
) -> (r: Option<SourceHit>)
    ensures
        model::opt_view(r) == hit_among(
            model::seq_view(sources@),
            model::keyed_view(sheets@),
            (Question { source_key: source_key@, model: model@, at, names: names@ }),
            sources@.len() as int,
        ),
{
    let ghost all = model::seq_view(sources@);
    let ghost views = model::keyed_view(sheets@);
    let ghost question = Question { source_key: source_key@, model: model@, at, names: names@ };
    let mut hit: Option<SourceHit> = None;
    let mut i: usize = 0;
    while i < sources.len()
        invariant
            i <= sources@.len(),
            all == model::seq_view(sources@),
            views == model::keyed_view(sheets@),
            question == (Question { source_key: source_key@, model: model@, at, names: names@ }),
            model::opt_view(hit) == hit_among(all, views, question, i as int),
        decreases sources.len() - i,
    {
        let source = &sources[i];
        if let Some(entry) = stated_entry(source, sheets, source_key, model, names) {
            if entry.is_active_at(at) {
                hit = match hit {
                    None => Some(
                        SourceHit {
                            source_id: source.id.clone(),
                            entry: entry.clone(),
                            currency: source.currency.clone(),
                        },
                    ),
                    Some(first) => {
                        let mut first = first;
                        if first.currency.is(&source.currency) {
                            first.entry.cost = fill_missing_cost(first.entry.cost, entry.cost);
                        }
                        Some(first)
                    },
                };
            }
        }
        i += 1;
    }
    hit
}

/// The sheet that prices a pair is the first in resolution order that states an
/// entry in effect; its currency is that sheet's, and so is every field that it
/// states.
pub proof fn first_sheet_wins(
    sources: Seq<SourceView>,
    sheets: Seq<(Seq<char>, SheetView)>,
    question: Question,
    first: int,
    n: int,
)
    requires
        0 <= first < n <= sources.len(),
        forall|i: int|
            0 <= i < first ==> match stated(
                #[trigger] sources[i],
                sheets,
                question.source_key,
                question.model,
                question.names,
            ) {
                Some(entry) => !entry.active(question.at),
                None => true,
            },
        ({
            let entry = stated(sources[first], sheets, question.source_key, question.model, question.names);
            entry is Some && entry->Some_0.active(question.at)
        }),
    ensures
        ({
            let hit = hit_among(sources, sheets, question, n);
            let own = stated(
                sources[first],
                sheets,
                question.source_key,
                question.model,
                question.names,
            )->Some_0;
            &&& hit is Some
            &&& hit->Some_0.source_id == sources[first].id
            &&& hit->Some_0.currency == sources[first].currency
            &&& hit->Some_0.entry == EntryView { cost: hit->Some_0.entry.cost, ..own }
            &&& own.cost.input is Some ==> hit->Some_0.entry.cost.input == own.cost.input
            &&& own.cost.output is Some ==> hit->Some_0.entry.cost.output == own.cost.output
            &&& own.cost.cache_read is Some ==> hit->Some_0.entry.cost.cache_read
                == own.cost.cache_read
            &&& own.cost.cache_write is Some ==> hit->Some_0.entry.cost.cache_write
                == own.cost.cache_write
        }),
    decreases n,
{
    if n == first + 1 {
        lemma_no_hit(sources, sheets, question, first);
    } else {
        first_sheet_wins(sources, sheets, question, first, n - 1);
    }
}

proof fn lemma_no_hit(
    sources: Seq<SourceView>,
    sheets: Seq<(Seq<char>, SheetView)>,
    question: Question,
    n: int,
)
    requires
        0 <= n <= sources.len(),
        forall|i: int|
            0 <= i < n ==> match stated(
                #[trigger] sources[i],
                sheets,
                question.source_key,
                question.model,
                question.names,
            ) {
                Some(entry) => !entry.active(question.at),
                None => true,
            },
    ensures
        hit_among(sources, sheets, question, n) is None,
    decreases n,
{
    if n > 0 {
        lemma_no_hit(sources, sheets, question, n - 1);
        let source = sources[n - 1];
    }
}

/// A source layer in which no sheet states an entry in effect has no answer.
pub proof fn silent_sheets_price_nothing(
    sources: Seq<SourceView>,
    sheets: Seq<(Seq<char>, SheetView)>,
    question: Question,
)
    requires
        forall|i: int|
            0 <= i < sources.len() ==> match stated(
                #[trigger] sources[i],
                sheets,
                question.source_key,
                question.model,
                question.names,
            ) {
                Some(entry) => !entry.active(question.at),
                None => true,
            },
    ensures
        hit_among(sources, sheets, question, sources.len() as int) is None,
{
    lemma_no_hit(sources, sheets, question, sources.len() as int);
}

/// The first source from `from` on that states an entry for the pair decides:
/// it either prices the call, or its being out of effect is what sent the price
/// to the next layer.
pub open spec fn sheet_out_of_effect(
    sources: Seq<SourceView>,
    sheets: Seq<(Seq<char>, SheetView)>,
    question: Question,
    from: int,
) -> Option<(Seq<char>, RuleOutOfEffect)>
    decreases sources.len() - from,
{
    if from < 0 || from >= sources.len() {
        None
    } else {
        match stated(sources[from], sheets, question.source_key, question.model, question.names) {
            Some(entry) => match entry.out_of_effect(question.at) {
                Some(reason) => Some((sources[from].id, reason)),
                None => None,
            },
            None => sheet_out_of_effect(sources, sheets, question, from + 1),
        }
    }
}

/// A sheet's rule that is out of effect, and the sheet that states it.
#[derive(Debug, PartialEq, Eq)]
pub struct OutOfEffectNotice {
    /// What the rule belongs to, as it is named to the user.
    pub owner: String,
    pub reason: RuleOutOfEffect,
}

impl OutOfEffectNotice {
    /// The marker shown next to the price of the next layer.
    pub fn label(&self) -> (r: String)
        ensures
            r@ == self.reason.words() + " ("@ + self.owner@ + ")"@,
    {
        let words = self.reason.label();
        text::join4(words, " (", self.owner.as_str(), ")")
    }
}

/// The sheet rule that covers `(source_key, model)` and is out of effect at
/// `at`, if any.
pub fn out_of_effect_sheet(
    sources: &Vec<PricingSource>,
    sheets: &Vec<(String, Sheet)>,
    source_key: &str,
    model: &str,
    at: Instant,
    names: &VendorNames,
) -> (r: Option<(String, RuleOutOfEffect)>)
    ensures
        ({
            let found = sheet_out_of_effect(
                model::seq_view(sources@),
                model::keyed_view(sheets@),
                Question { source_key: source_key@, model: model@, at, names: names@ },
                0,
            );
            match r {
                Some(notice) => found == Some((notice.0@, notice.1)),
                None => found is None,
            }
        }),
{
    let ghost all = model::seq_view(sources@);
    let ghost views = model::keyed_view(sheets@);
    let ghost question = Question { source_key: source_key@, model: model@, at, names: names@ };
    let mut i: usize = 0;
    while i < sources.len()
        invariant
            i <= sources@.len(),
            all == model::seq_view(sources@),
            views == model::keyed_view(sheets@),
            question == (Question { source_key: source_key@, model: model@, at, names: names@ }),
            sheet_out_of_effect(all, views, question, 0) == sheet_out_of_effect(
                all,
                views,
                question,
                i as int,
            ),
        decreases sources.len() - i,
    {
        if let Some(entry) = stated_entry(&sources[i], sheets, source_key, model, names) {
            return match entry.out_of_effect_reason(at) {
                Some(reason) => Some((sources[i].id.clone(), reason)),
                None => None,
            };
        }
        i += 1;
    }
    None
}

/// The notice about the sheet rule that is out of effect at `at`, if any.
pub fn sheet_rule_out_of_effect(
    sources: &Vec<PricingSource>,
    sheets: &Vec<(String, Sheet)>,
    source_key: &str,
    model: &str,
    at: Instant,
    names: &VendorNames,
) -> (r: Option<OutOfEffectNotice>)
    ensures
        ({
            let found = sheet_out_of_effect(
                model::seq_view(sources@),
                model::keyed_view(sheets@),
                Question { source_key: source_key@, model: model@, at, names: names@ },
                0,
            );
            match r {
                Some(notice) => {
                    &&& found is Some
                    &&& notice.owner@ == "pricing source `"@ + found->Some_0.0 + "`"@
                    &&& notice.reason == found->Some_0.1
                },
                None => found is None,
            }
        }),
{
    match out_of_effect_sheet(sources, sheets, source_key, model, at, names) {
        Some((id, reason)) => Some(
            OutOfEffectNotice {
                owner: text::join3("pricing source `", id.as_str(), "`"),
                reason,
            },
        ),
        None => None,
    }
}

/// What the text of a sheet amounts to, once it is known not to be too large.
pub fn parse_sheet(body: &str) -> (r: Result<Sheet, String>)
    ensures
        catalog::sheet_outcome(r) == if file_cache::oversized(body) {
            Err(file_cache::too_large("sheet"@))
        } else {
            catalog::sheet_parsed(body@)
        },
        r is Ok ==> r->Ok_0.wf(),
{
    if file_cache::is_oversized(body) {
        return Err(text::join2("sheet", " is larger than 33554432 bytes"));
    }
    catalog::parse_api_response(body)
}

/// Whether a sheet that was just read differs from the copy.
pub open spec fn sheet_changed(copy: Option<CopyView<SheetView>>, sheet: SheetView) -> bool {
    copy is None || !catalog::sheets_agree(copy->Some_0.contents, sheet)
}

/// Store a freshly read sheet, replacing whatever was there. Returns whether
/// the rates a lookup would resolve may have changed.
pub fn save_catalog(
    registry: &mut FileRegistry<Sheet>,
    id: &str,
    path: &str,
    fingerprint: Option<FileFingerprint>,
    sheet: Sheet,
    now_unix_secs: u64,
) -> (r: bool)
    ensures
        r == sheet_changed(old(registry).copy_of(id@), sheet@),
        model::keyed(final(registry).failures@) == model::taken_from(
            model::keyed(old(registry).failures@),
            id@,
        ),
        model::keyed_view(final(registry).copies@) == model::put_in(
            model::keyed_view(old(registry).copies@),
            id@,
            (CopyView {
                location: path@,
                fetched_at_unix_secs: now_unix_secs,
                fingerprint,
                contents: sheet@,
            }),
        ),
        old(registry).wf() ==> final(registry).wf(),
{
    let changed: bool = match registry.contents(id) {
        Some(existing) => !existing.same(&sheet),
        None => true,
    };
    registry.store(id, path, fingerprint, sheet, now_unix_secs);
    changed
}

/// Every entry of a source's scope counts, wherever in the list it stands: a
/// provider that one of them names is covered, and one that none names is not. A
/// source without a scope covers every provider.
pub proof fn every_scope_entry_counts(
    scope: Seq<Seq<char>>,
    source_key: Seq<char>,
    names: NamesView,
    at: int,
)
    ensures
        scope.len() == 0 ==> scope_covers(scope, source_key, names),
        0 <= at < scope.len() && providers::same_provider(scope[at], source_key, names)
            ==> scope_covers(scope, source_key, names),
        scope.len() > 0 && (forall|i: int|
            0 <= i < scope.len() ==> !providers::same_provider(
                #[trigger] scope[i],
                source_key,
                names,
            )) ==> !scope_covers(scope, source_key, names),
{
}

/// Which providers a source covers does not depend on the order of its scope.
pub proof fn scope_order_does_not_matter(
    one: Seq<Seq<char>>,
    other: Seq<Seq<char>>,
    source_key: Seq<char>,
    names: NamesView,
)
    requires
        one.to_multiset() == other.to_multiset(),
    ensures
        scope_covers(one, source_key, names) == scope_covers(other, source_key, names),
{
    broadcast use vstd::seq_lib::group_to_multiset_ensures;

    assert(one.to_multiset().len() == one.len() && other.to_multiset().len() == other.len());
    if scope_covers(one, source_key, names) && one.len() > 0 {
        let i = choose|i: int|
            0 <= i < one.len() && providers::same_provider(#[trigger] one[i], source_key, names);
        assert(one.contains(one[i]));
        assert(one.to_multiset().count(one[i]) > 0);
        assert(other.to_multiset().count(one[i]) > 0);
        assert(other.contains(one[i]));
        let j = choose|j: int| 0 <= j < other.len() && other[j] == one[i];
        assert(providers::same_provider(other[j], source_key, names));
    }
    if scope_covers(other, source_key, names) && other.len() > 0 {
        let i = choose|i: int|
            0 <= i < other.len() && providers::same_provider(#[trigger] other[i], source_key, names);
        assert(other.contains(other[i]));
        assert(other.to_multiset().count(other[i]) > 0);
        assert(one.to_multiset().count(other[i]) > 0);
        assert(one.contains(other[i]));
        let j = choose|j: int| 0 <= j < one.len() && one[j] == other[i];
        assert(providers::same_provider(one[j], source_key, names));
    }
}

/// Every glob of a source counts, wherever in the list it stands, for the id as
/// it is and for the id without its local parts. A source without globs covers
/// every model.
pub proof fn every_glob_counts(globs: Seq<Seq<char>>, model: Seq<char>, at: int)
    ensures
        globs.len() == 0 ==> globs_cover(globs, model),
        0 <= at < globs.len() && providers::glob(globs[at], model) ==> globs_cover(globs, model),
        0 <= at < globs.len() && providers::glob(globs[at], providers::normal_id(model))
            ==> globs_cover(globs, model),
        globs.len() > 0 && (forall|i: int|
            0 <= i < globs.len() ==> !providers::glob(#[trigger] globs[i], model)
                && !providers::glob(globs[i], providers::normal_id(model))) ==> !globs_cover(
            globs,
            model,
        ),
{
}

/// A source says what its own sheet states, and only about a provider and a
/// model that it covers.
pub proof fn source_speaks_within_its_scope(
    source: SourceView,
    sheets: Seq<(Seq<char>, SheetView)>,
    source_key: Seq<char>,
    model: Seq<char>,
    names: NamesView,
    sheet: int,
)
    requires
        0 <= sheet < sheets.len(),
        sheets[sheet].0 == source.id,
        forall|k: int| 0 <= k < sheet ==> (#[trigger] sheets[k]).0 != source.id,
    ensures
        scope_covers(source.scope, source_key, names) && globs_cover(source.models, model)
            ==> stated(source, sheets, source_key, model, names) == sheet_entry(
            sheets[sheet].1,
            source_key,
            model,
            names,
        ),
        !scope_covers(source.scope, source_key, names) ==> stated(
            source,
            sheets,
            source_key,
            model,
            names,
        ) is None,
        !globs_cover(source.models, model) ==> stated(source, sheets, source_key, model, names)
            is None,
{
    model::lemma_index_from(sheets, source.id, 0);
}

/// A source whose sheet cannot be used says nothing.
pub proof fn source_without_a_sheet_is_silent(
    source: SourceView,
    sheets: Seq<(Seq<char>, SheetView)>,
    source_key: Seq<char>,
    model: Seq<char>,
    names: NamesView,
)
    requires
        forall|k: int| 0 <= k < sheets.len() ==> (#[trigger] sheets[k]).0 != source.id,
    ensures
        stated(source, sheets, source_key, model, names) is None,
{
    model::lemma_index_from(sheets, source.id, 0);
}

/// A sheet prices a provider from the section under its own key, and only
/// without one from the section under its models.dev id.
pub proof fn own_section_comes_first(
    sheet: SheetView,
    source_key: Seq<char>,
    names: NamesView,
    at: int,
)
    requires
        0 <= at < sheet.len(),
        forall|k: int| 0 <= k < at ==> (#[trigger] sheet[k]).0 != sheet[at].0,
    ensures
        sheet[at].0 == source_key ==> section_in(sheet, source_key, names) == Some(sheet[at].1),
        (forall|k: int| 0 <= k < sheet.len() ==> (#[trigger] sheet[k]).0 != source_key)
            && providers::dev_id(source_key, names) == Some(sheet[at].0) ==> section_in(
            sheet,
            source_key,
            names,
        ) == Some(sheet[at].1),
{
    model::lemma_index_from(sheet, sheet[at].0, 0);
    model::lemma_index_from(sheet, source_key, 0);
}

/// A sheet has no section for a provider that none of its keys names.
pub proof fn sheet_without_the_provider_is_silent(
    sheet: SheetView,
    source_key: Seq<char>,
    names: NamesView,
)
    requires
        forall|k: int|
            0 <= k < sheet.len() ==> (#[trigger] sheet[k]).0 != source_key && Some(sheet[k].0)
                != providers::dev_id(source_key, names) && !providers::same_provider(
                sheet[k].0,
                source_key,
                names,
            ),
    ensures
        section_in(sheet, source_key, names) is None,
{
    model::lemma_index_from(sheet, source_key, 0);
    if let Some(id) = providers::dev_id(source_key, names) {
        model::lemma_index_from(sheet, id, 0);
    }
    smallest_key_is_smallest(sheet, source_key, names, sheet.len() as int);
}

/// One of the rates of a card.
pub enum RateField {
    Input,
    Output,
    CacheRead,
    CacheWrite,
}

/// The rate that a card states in a field.
pub open spec fn rate_in(card: CostFields, field: RateField) -> Option<crate::rate::Rate> {
    match field {
        RateField::Input => card.input,
        RateField::Output => card.output,
        RateField::CacheRead => card.cache_read,
        RateField::CacheWrite => card.cache_write,
    }
}

/// The card that a source contributes in a currency, where it states one that is
/// in effect.
pub open spec fn contributed(
    source: SourceView,
    sheets: Seq<(Seq<char>, SheetView)>,
    question: Question,
    currency: Seq<char>,
) -> Option<CostFields> {
    match stated(source, sheets, question.source_key, question.model, question.names) {
        Some(entry) => if entry.active(question.at) && source.currency == currency {
            Some(entry.cost)
        } else {
            None
        },
        None => None,
    }
}

/// Each rate of the answer is the first one that a sheet in the answer's
/// currency states, in resolution order; sheets in another currency contribute
/// nothing, and a rate that no such sheet states stays unset.
pub proof fn each_rate_is_the_first_one_stated(
    sources: Seq<SourceView>,
    sheets: Seq<(Seq<char>, SheetView)>,
    question: Question,
    n: int,
    field: RateField,
)
    requires
        0 <= n <= sources.len(),
        hit_among(sources, sheets, question, n) is Some,
    ensures
        ({
            let hit = hit_among(sources, sheets, question, n)->Some_0;
            match rate_in(hit.entry.cost, field) {
                Some(rate) => exists|i: int|
                    0 <= i < n && ({
                        let card = contributed(
                            #[trigger] sources[i],
                            sheets,
                            question,
                            hit.currency,
                        );
                        card is Some && rate_in(card->Some_0, field) == Some(rate)
                    }) && forall|j: int|
                        0 <= j < i ==> ({
                            let card = contributed(
                                #[trigger] sources[j],
                                sheets,
                                question,
                                hit.currency,
                            );
                            card is Some ==> rate_in(card->Some_0, field) is None
                        }),
                None => forall|i: int|
                    0 <= i < n ==> ({
                        let card = contributed(
                            #[trigger] sources[i],
                            sheets,
                            question,
                            hit.currency,
                        );
                        card is Some ==> rate_in(card->Some_0, field) is None
                    }),
            }
        }),
    decreases n,
{
    if n > 0 {
        let before = hit_among(sources, sheets, question, n - 1);
        let hit = hit_among(sources, sheets, question, n)->Some_0;
        let source = sources[n - 1];
        if before is Some {
            each_rate_is_the_first_one_stated(sources, sheets, question, n - 1, field);
            assert(hit.currency == before->Some_0.currency);
            let old_rate = rate_in(before->Some_0.entry.cost, field);
            if let Some(rate) = old_rate {
                let i = choose|i: int|
                    0 <= i < n - 1 && ({
                        let card = contributed(
                            #[trigger] sources[i],
                            sheets,
                            question,
                            hit.currency,
                        );
                        card is Some && rate_in(card->Some_0, field) == Some(rate)
                    }) && forall|j: int|
                        0 <= j < i ==> ({
                            let card = contributed(
                                #[trigger] sources[j],
                                sheets,
                                question,
                                hit.currency,
                            );
                            card is Some ==> rate_in(card->Some_0, field) is None
                        });
                assert(rate_in(hit.entry.cost, field) == Some(rate));
                assert(contributed(sources[i], sheets, question, hit.currency) is Some);
            } else {
                let card = contributed(source, sheets, question, hit.currency);
                assert(contributed(sources[n - 1], sheets, question, hit.currency) == card);
            }
        } else {
            let card = contributed(sources[n - 1], sheets, question, hit.currency);
            assert(card == Some(hit.entry.cost));
            lemma_nothing_before(sources, sheets, question, n - 1, hit.currency);
        }
    }
}

proof fn lemma_nothing_before(
    sources: Seq<SourceView>,
    sheets: Seq<(Seq<char>, SheetView)>,
    question: Question,
    n: int,
    currency: Seq<char>,
)
    requires
        0 <= n <= sources.len(),
        hit_among(sources, sheets, question, n) is None,
    ensures
        forall|i: int|
            0 <= i < n ==> contributed(#[trigger] sources[i], sheets, question, currency) is None,
    decreases n,
{
    if n > 0 {
        lemma_nothing_before(sources, sheets, question, n - 1, currency);
    }
}

/// The first source that states an entry for the pair is the one whose being out
/// of effect is reported, with its own id and reason; in effect it is not
/// reported, and neither is a later one.
pub proof fn first_stating_source_is_reported(
    sources: Seq<SourceView>,
    sheets: Seq<(Seq<char>, SheetView)>,
    question: Question,
    from: int,
    first: int,
)
    requires
        0 <= from <= first < sources.len(),
        forall|i: int|
            from <= i < first ==> stated(
                #[trigger] sources[i],
                sheets,
                question.source_key,
                question.model,
                question.names,
            ) is None,
        stated(
            sources[first],
            sheets,
            question.source_key,
            question.model,
            question.names,
        ) is Some,
    ensures
        ({
            let entry = stated(
                sources[first],
                sheets,
                question.source_key,
                question.model,
                question.names,
            )->Some_0;
            let found = sheet_out_of_effect(sources, sheets, question, from);
            match entry.out_of_effect(question.at) {
                Some(reason) => found == Some((sources[first].id, reason)),
                None => found is None,
            }
        }),
    decreases first - from,
{
    if from < first {
        first_stating_source_is_reported(sources, sheets, question, from + 1, first);
    }
}

/// A field that a card leaves unset is taken from the next one, and from the
/// field of the same name.
pub proof fn unset_field_is_filled(cost: CostFields, fallback: CostFields, field: RateField)
    ensures
        rate_in(cost, field) is Some ==> rate_in(filled(cost, fallback), field) == rate_in(
            cost,
            field,
        ),
        rate_in(cost, field) is None ==> rate_in(filled(cost, fallback), field) == rate_in(
            fallback,
            field,
        ),
{
}

/// A sheet that was read again has changed unless there was one before that
/// agrees with it.
pub proof fn sheet_has_changed_unless_it_agrees(copy: CopyView<SheetView>, sheet: SheetView)
    ensures
        sheet_changed(None, sheet),
        sheet_changed(Some(copy), sheet) <==> !catalog::sheets_agree(copy.contents, sheet),
{
}

} // verus!
