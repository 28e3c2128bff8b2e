//! Per-vendor price files: the `[pricing.providers.<vendor>].file` layer, which
//! sits between the user's own inline cards and the derived layers.
//!
//! A vendor file is a JSON document `{"models": {"<model-id>": <rule>}}`. Its
//! rules are matched by model id whatever the route. A file that has nothing
//! usable to say leaves the model to the next layer.

use crate::catalog;
use crate::catalog::ModelTable;
use crate::config_types::{ModelPricingRuleFile, ModelPricingRuleFileView};
use crate::entry;
use crate::entry::{EntryView, ModelPricingEntry};
use crate::file_cache;
use crate::file_cache::{CopyView, FileFingerprint, FileRegistry};
use crate::json;
use crate::json::Json;
use crate::model;
use crate::pricing_config;
use crate::text;
use vstd::prelude::*;

verus! {

/// The first of the entries from `from` on whose value is an object with a
/// `models` field.
pub open spec fn vendor_key_from(entries: Seq<(Seq<char>, Json)>, from: int) -> Option<Seq<char>>
    decreases entries.len() - from,
{
    if from < 0 || from >= entries.len() {
        None
    } else if json::field(entries[from].1, "models"@) is Some {
        Some(entries[from].0)
    } else {
        vendor_key_from(entries, from + 1)
    }
}

/// The outer key of a document that names the vendor itself. A document that
/// is no object, or that has a `models` field, is not of that shape.
pub open spec fn outer_key(json: Json) -> Option<Seq<char>> {
    if json::field(json, "models"@) is Some {
        None
    } else {
        vendor_key_from(json::entries_of(json), 0)
    }
}

/// The outer key of a vendor-keyed document (`{"deepseek": {"models": ...}}`).
pub fn legacy_outer_vendor_key(root: &serde_json::Value) -> (r: Option<String>)
    ensures
        model::opt_view(r) == outer_key(json::json_tree(*root)),
{
    let keys = match json::json_keys(root) {
        Some(keys) => keys,
        None => {
            return None;
        },
    };
    if json::json_field(root, "models").is_some() {
        return None;
    }
    let ghost s = json::entries_of(json::json_tree(*root));
    let mut i: usize = 0;
    while i < keys.len()
        invariant
            i <= keys@.len(),
            s == json::entries_of(json::json_tree(*root)),
            keys@.len() == s.len(),
            forall|k: int| 0 <= k < keys@.len() ==> (#[trigger] keys@[k])@ == s[k].0,
            forall|a: int, b: int|
                0 <= a < b < keys@.len() ==> (#[trigger] keys@[a])@ != (#[trigger] keys@[b])@,
            json::field(json::json_tree(*root), "models"@) is None,
            vendor_key_from(s, 0) == vendor_key_from(s, i as int),
        decreases keys.len() - i,
    {
        proof {
            assert forall|a: int, b: int| 0 <= a < b < s.len() implies (#[trigger] s[a]).0 != (
            #[trigger] s[b]).0 by {
                assert(keys@[a]@ != keys@[b]@);
            }
            json::lemma_distinct_get(s, i as int);
            assert(keys@[i as int]@ == s[i as int].0);
        }
        if let Some(value) = json::json_field(root, keys[i].as_str()) {
            if json::json_field(value, "models").is_some() {
                return Some(text::owned(keys[i].as_str()));
            }
        }
        i += 1;
    }
    None
}

/// What a document without usable `models` is refused with.
pub open spec fn shape_error(json: Json) -> Seq<char> {
    match outer_key(json) {
        Some(vendor) => "expected {\"models\": {...}} with no outer provider key, but the file has an outer key `"@
            + vendor + "`; the vendor is already the `[pricing.providers."@ + vendor
            + "]` config key, so remove that key from the file"@,
        None => if json::field(json, "models"@) is Some {
            "invalid field `models`: expected an object"@
        } else {
            "missing field `models`"@
        },
    }
}

fn shape_message(root: &serde_json::Value) -> (r: String)
    ensures
        r@ == shape_error(json::json_tree(*root)),
{
    match legacy_outer_vendor_key(root) {
        Some(vendor) => text::join5(
            "expected {\"models\": {...}} with no outer provider key, but the file has an outer key `",
            vendor.as_str(),
            "`; the vendor is already the `[pricing.providers.",
            vendor.as_str(),
            "]` config key, so remove that key from the file",
        ),
        None => if json::json_field(root, "models").is_some() {
            text::owned("invalid field `models`: expected an object")
        } else {
            text::owned("missing field `models`")
        },
    }
}

pub open spec fn read_step() -> spec_fn(int, (Seq<char>, Json)) -> Result<
    (Seq<char>, ModelPricingRuleFileView),
    Seq<char>,
> {
    |i: int, named: (Seq<char>, Json)|
        match json::rule_read(named.1) {
            Ok(rule) => Ok((named.0, rule)),
            Err(_) => Err("invalid rule for model `"@ + named.0 + "`"@),
        }
}

pub open spec fn convert_step(path: Seq<char>) -> spec_fn(
    int,
    (Seq<char>, ModelPricingRuleFileView),
) -> Result<(Seq<char>, EntryView), Seq<char>> {
    |i: int, named: (Seq<char>, ModelPricingRuleFileView)|
        match pricing_config::rule_of(named.1, path + ".models."@ + named.0) {
            Ok(rule) => Ok((named.0, entry::rule_entry(rule))),
            Err(e) => Err(e.field_path + ": "@ + e.message),
        }
}

/// The models of a vendor document: every rule can be read, and every rule is
/// valid just as a hand-written card is.
pub open spec fn vendor_models(json: Json, path: Seq<char>) -> Result<
    Seq<(Seq<char>, EntryView)>,
    Seq<char>,
> {
    match json::field(json, "models"@) {
        Some(Json::Object(entries)) => match model::collect(entries, read_step()) {
            Err(message) => Err(message),
            Ok(rules) => model::collect(rules, convert_step(path)),
        },
        _ => Err(shape_error(json)),
    }
}

fn read_rules(models: &serde_json::Value, keys: Vec<String>) -> (r: Result<
    Vec<(String, ModelPricingRuleFile)>,
    String,
>)
    requires
        ({
            let s = json::entries_of(json::json_tree(*models));
            &&& keys@.len() == s.len()
            &&& forall|k: int| 0 <= k < keys@.len() ==> (#[trigger] keys@[k])@ == s[k].0
            &&& forall|a: int, b: int|
                0 <= a < b < keys@.len() ==> (#[trigger] keys@[a])@ != (#[trigger] keys@[b])@
        }),
    ensures
        ({
            let s = json::entries_of(json::json_tree(*models));
            match r {
                Ok(v) => model::collect(s, read_step()) == Ok::<
                    Seq<(Seq<char>, ModelPricingRuleFileView)>,
                    Seq<char>,
                >(model::keyed_view(v@)) && model::distinct_keys(model::keyed_view(v@)),
                Err(message) => model::collect(s, read_step()) == Err::<
                    Seq<(Seq<char>, ModelPricingRuleFileView)>,
                    Seq<char>,
                >(message@),
            }
        }),
{
    let mut out: Vec<(String, ModelPricingRuleFile)> = Vec::new();
    assert(model::keyed_view(out@) =~= Seq::empty());
    let ghost s = json::entries_of(json::json_tree(*models));
    let ghost f = read_step();
    let mut i: usize = 0;
    while i < keys.len()
        invariant
            i <= keys@.len(),
            s == json::entries_of(json::json_tree(*models)),
            f == read_step(),
            keys@.len() == s.len(),
            forall|k: int| 0 <= k < keys@.len() ==> (#[trigger] keys@[k])@ == s[k].0,
            forall|a: int, b: int|
                0 <= a < b < keys@.len() ==> (#[trigger] keys@[a])@ != (#[trigger] keys@[b])@,
            model::collect(s.take(i as int), f) == Ok::<
                Seq<(Seq<char>, ModelPricingRuleFileView)>,
                Seq<char>,
            >(model::keyed_view(out@)),
        decreases keys.len() - i,
    {
        proof {
            assert forall|a: int, b: int| 0 <= a < b < s.len() implies (#[trigger] s[a]).0 != (
            #[trigger] s[b]).0 by {
                assert(keys@[a]@ != keys@[b]@);
            }
            json::lemma_distinct_get(s, i as int);
            assert(keys@[i as int]@ == s[i as int].0);
            model::lemma_collect_step(s, f, i as int);
        }
        let id = keys[i].as_str();
        let read: Result<ModelPricingRuleFile, ()> = match json::json_field(models, id) {
            Some(value) => json::read_rule(value),
            None => Err(()),
        };
        match read {
            Ok(rule) => {
                let ghost before = model::keyed_view(out@);
                out.push((text::owned(id), rule));
                assert(model::keyed_view(out@) =~= before.push((id@, rule@)));
            },
            Err(_) => {
                proof {
                    model::lemma_collect_fails(s, f, i + 1);
                }
                return Err(text::join3("invalid rule for model `", id, "`"));
            },
        }
        i += 1;
    }
    assert(s.take(i as int) =~= s);
    proof {
        assert forall|a: int, b: int| 0 <= a < b < s.len() implies (#[trigger] s[a]).0 != (
        #[trigger] s[b]).0 by {
            assert(keys@[a]@ != keys@[b]@);
        }
        model::collecting_keeps_keys_distinct(s, f);
    }
    Ok(out)
}

/// Validate the rules that a vendor file states.
pub fn convert_vendor_rules(rules: &Vec<(String, ModelPricingRuleFile)>, path: &str) -> (r: Result<
    ModelTable,
    String,
>)
    ensures
        ({
            let s = model::keyed_view(rules@);
            match r {
                Ok(table) => model::collect(s, convert_step(path@)) == Ok::<
                    Seq<(Seq<char>, EntryView)>,
                    Seq<char>,
                >(table@) && (model::distinct_keys(s) ==> table.wf()),
                Err(message) => model::collect(s, convert_step(path@)) == Err::<
                    Seq<(Seq<char>, EntryView)>,
                    Seq<char>,
                >(message@),
            }
        }),
{
    let mut out: Vec<(String, ModelPricingEntry)> = Vec::new();
    assert(model::keyed_view(out@) =~= Seq::empty());
    let ghost s = model::keyed_view(rules@);
    let ghost f = convert_step(path@);
    let mut i: usize = 0;
    while i < rules.len()
        invariant
            i <= rules@.len(),
            s == model::keyed_view(rules@),
            f == convert_step(path@),
            model::collect(s.take(i as int), f) == Ok::<
                Seq<(Seq<char>, EntryView)>,
                Seq<char>,
            >(model::keyed_view(out@)),
        decreases rules.len() - i,
    {
        proof {
            model::lemma_collect_step(s, f, i as int);
        }
        let id = rules[i].0.as_str();
        let at = text::join3(path, ".models.", id);
        match pricing_config::convert_rule(&rules[i].1, at.as_str()) {
            Ok(rule) => {
                let entry = ModelPricingEntry::from_rule(&rule);
                let ghost before = model::keyed_view(out@);
                out.push((text::owned(id), entry));
                assert(model::keyed_view(out@) =~= before.push((id@, entry@)));
            },
            Err(e) => {
                proof {
                    model::lemma_collect_fails(s, f, i + 1);
                }
                return Err(e.to_text());
            },
        }
        i += 1;
    }
    assert(s.take(i as int) =~= s);
    proof {
        if model::distinct_keys(s) {
            model::collecting_keeps_keys_distinct(s, f);
        }
    }
    Ok(ModelTable { models: out })
}

/// What reading a vendor file gave.
pub open spec fn vendor_outcome(r: Result<ModelTable, String>) -> Result<
    Seq<(Seq<char>, EntryView)>,
    Seq<char>,
> {
    match r {
        Ok(table) => Ok(table@),
        Err(message) => Err(message@),
    }
}

/// Read the models of a vendor document. `path` names the file in messages.
pub fn read_vendor_file(root: &serde_json::Value, path: &str) -> (r: Result<ModelTable, String>)
    ensures
        vendor_outcome(r) == vendor_models(json::json_tree(*root), path@),
        r is Ok ==> r->Ok_0.wf(),
{
    let models = match json::json_field(root, "models") {
        Some(models) => models,
        None => {
            return Err(shape_message(root));
        },
    };
    let keys = match json::json_keys(models) {
        Some(keys) => keys,
        None => {
            return Err(shape_message(root));
        },
    };
    match read_rules(models, keys) {
        Ok(rules) => convert_vendor_rules(&rules, path),
        Err(message) => Err(message),
    }
}

/// What the text of a vendor file amounts to.
pub open spec fn vendor_parsed(body: &str, path: Seq<char>) -> Result<
    Seq<(Seq<char>, EntryView)>,
    Seq<char>,
> {
    if file_cache::oversized(body) {
        Err(file_cache::too_large("file"@))
    } else {
        match json::json_parsed(body@) {
            Err(message) => Err(message),
            Ok(json) => vendor_models(json, path),
        }
    }
}

/// Parse a vendor file body into its models.
pub fn parse_vendor_file(body: &str, path: &str) -> (r: Result<ModelTable, String>)
    ensures
        vendor_outcome(r) == vendor_parsed(body, path@),
        r is Ok ==> r->Ok_0.wf(),
{
    if file_cache::is_oversized(body) {
        return Err(text::join2("file", " is larger than 33554432 bytes"));
    }
    match json::parse_json(body) {
        Ok(root) => read_vendor_file(&root, path),
        Err(message) => Err(message),
    }
}

/// The rule that a vendor's usable file states for a model.
pub open spec fn rule_in(
    files: Seq<(Seq<char>, Seq<(Seq<char>, EntryView)>)>,
    vendor: Seq<char>,
    model: Seq<char>,
) -> Option<EntryView> {
    match model::get(files, vendor) {
        Some(models) => catalog::model_in(models, model),
        None => None,
    }
}

/// The rule a vendor file states for `model`, if the file can be used and names
/// it.
pub fn vendor_rule<'a>(files: &'a Vec<(String, ModelTable)>, vendor: &str, model: &str) -> (r: Option<
    &'a ModelPricingEntry,
>)
    ensures
        match r {
            Some(entry) => rule_in(model::keyed_view(files@), vendor@, model@) == Some(entry@),
            None => rule_in(model::keyed_view(files@), vendor@, model@) is None,
        },
{
    match model::find_view(files, vendor) {
        Some(table) => table.find_model(model),
        None => None,
    }
}

/// Store a freshly read vendor file, replacing whatever was there. Returns
/// whether the rates a lookup would resolve may have changed.
pub fn save_vendor_catalog(
    registry: &mut FileRegistry<ModelTable>,
    vendor: &str,
    path: &str,
    fingerprint: Option<FileFingerprint>,
    models: ModelTable,
    now_unix_secs: u64,
) -> (r: bool)
    ensures
        r == (old(registry).copy_of(vendor@) is None || !catalog::tables_agree(
            old(registry).copy_of(vendor@)->Some_0.contents,
            models@,
        )),
        model::keyed(final(registry).failures@) == model::taken_from(
            model::keyed(old(registry).failures@),
            vendor@,
        ),
        model::keyed_view(final(registry).copies@) == model::put_in(
            model::keyed_view(old(registry).copies@),
            vendor@,
            (CopyView {
                location: path@,
                fetched_at_unix_secs: now_unix_secs,
                fingerprint,
                contents: models@,
            }),
        ),
        old(registry).wf() ==> final(registry).wf(),
{
    let changed: bool = match registry.contents(vendor) {
        Some(existing) => !existing.same(&models),
        None => true,
    };
    registry.store(vendor, path, fingerprint, models, now_unix_secs);
    changed
}

/// A file has the older shape when it has no models itself but a key whose
/// value has some; the first such key is the one that is named.
pub proof fn outer_key_is_the_first_with_models(json: Json, i: int)
    requires
        0 <= i < json::entries_of(json).len(),
    ensures
        ({
            let entries = json::entries_of(json);
            let nests = |j: Json| !json::lacks(j, "models"@);
            &&& nests(json) ==> outer_key(json) is None
            &&& !nests(json) && nests(entries[i].1) && (forall|k: int|
                0 <= k < i ==> !nests((#[trigger] entries[k]).1)) ==> outer_key(json) == Some(
                entries[i].0,
            )
            &&& (forall|k: int| 0 <= k < entries.len() ==> !nests((#[trigger] entries[k]).1))
                ==> outer_key(json) is None
        }),
{
    json::field_is_the_member(json, "models"@);
    lemma_vendor_key(json::entries_of(json), 0);
}

proof fn lemma_vendor_key(entries: Seq<(Seq<char>, Json)>, from: int)
    requires
        0 <= from,
    ensures
        ({
            let nests = |j: Json| !json::lacks(j, "models"@);
            match vendor_key_from(entries, from) {
                Some(key) => exists|i: int|
                    from <= i < entries.len() && nests((#[trigger] entries[i]).1) && entries[i].0
                        == key && forall|k: int| from <= k < i ==> !nests((#[trigger] entries[k]).1),
                None => forall|k: int|
                    from <= k < entries.len() ==> !nests((#[trigger] entries[k]).1),
            }
        }),
    decreases entries.len() - from,
{
    if from < entries.len() {
        json::field_is_the_member(entries[from].1, "models"@);
        if json::lacks(entries[from].1, "models"@) {
            lemma_vendor_key(entries, from + 1);
        } else {
            assert(entries[from].0 == vendor_key_from(entries, from)->Some_0);
        }
    }
}

/// A price file has an entry for each of its models, under the model's own id
/// and in the file's order: the one that the model's rule makes.
pub proof fn file_has_an_entry_for_each_model(
    json: Json,
    path: Seq<char>,
    entries: Seq<(Seq<char>, Json)>,
    i: int,
)
    requires
        json::member(json, "models"@, Json::Object(entries)),
        vendor_models(json, path) is Ok,
        0 <= i < entries.len(),
    ensures
        ({
            let models = vendor_models(json, path)->Ok_0;
            let read = json::rule_read(entries[i].1);
            let rule = pricing_config::rule_of(
                read->Ok_0,
                path + ".models."@ + entries[i].0,
            );
            &&& models.len() == entries.len()
            &&& read is Ok
            &&& rule is Ok
            &&& models[i].0 == entries[i].0
            &&& models[i].1 == entry::rule_entry(rule->Ok_0)
        }),
{
    json::field_is_the_member(json, "models"@);
    model::lemma_collect_values(entries, read_step());
    let rules = model::collect(entries, read_step())->Ok_0;
    model::lemma_collect_values(rules, convert_step(path));
    assert(read_step()(i, entries[i]) == Ok::<_, Seq<char>>(rules[i]));
    assert(convert_step(path)(i, rules[i]) == Ok::<_, Seq<char>>(
        vendor_models(json, path)->Ok_0[i],
    ));
}

/// A price file of which every model's rule is valid is accepted.
pub proof fn valid_price_file_is_accepted(
    json: Json,
    path: Seq<char>,
    entries: Seq<(Seq<char>, Json)>,
)
    requires
        json::member(json, "models"@, Json::Object(entries)),
        forall|i: int|
            0 <= i < entries.len() ==> json::rule_read((#[trigger] entries[i]).1) is Ok
                && pricing_config::rule_of(
                json::rule_read(entries[i].1)->Ok_0,
                path + ".models."@ + entries[i].0,
            ) is Ok,
    ensures
        vendor_models(json, path) is Ok,
{
    json::field_is_the_member(json, "models"@);
    assert forall|i: int| 0 <= i < entries.len() implies read_step()(
        i,
        #[trigger] entries[i],
    ) is Ok by {}
    model::lemma_collect_all_ok(entries, read_step());
    model::lemma_collect_values(entries, read_step());
    let rules = model::collect(entries, read_step())->Ok_0;
    assert forall|i: int| 0 <= i < rules.len() implies convert_step(path)(
        i,
        #[trigger] rules[i],
    ) is Ok by {
        assert(read_step()(i, entries[i]) == Ok::<_, Seq<char>>(rules[i]));
    }
    model::lemma_collect_all_ok(rules, convert_step(path));
}

/// A file without an object of models is refused, with the reason.
pub proof fn file_without_models_is_refused(json: Json, path: Seq<char>)
    ensures
        (forall|entries: Seq<(Seq<char>, Json)>|
            !(#[trigger] json::member(json, "models"@, Json::Object(entries)))) ==> vendor_models(
            json,
            path,
        )
            == Err::<Seq<(Seq<char>, EntryView)>, Seq<char>>(shape_error(json)),
        !json::lacks(json, "models"@) ==> shape_error(json)
            == "invalid field `models`: expected an object"@,
        json::lacks(json, "models"@) && outer_key(json) is None ==> shape_error(json)
            == "missing field `models`"@,
{
    json::field_is_the_member(json, "models"@);
    if let Some(Json::Object(entries)) = json::field(json, "models"@) {
        assert(json::member(json, "models"@, Json::Object(entries)));
    }
}

/// A vendor's rule for a model comes from that vendor's file, and there is none
/// without a file.
pub proof fn rule_comes_from_the_vendors_own_file(
    files: Seq<(Seq<char>, Seq<(Seq<char>, EntryView)>)>,
    vendor: Seq<char>,
    model: Seq<char>,
    i: int,
)
    ensures
        0 <= i < files.len() && files[i].0 == vendor && (forall|k: int|
            0 <= k < i ==> (#[trigger] files[k]).0 != vendor) ==> rule_in(files, vendor, model)
            == catalog::model_in(files[i].1, model),
        (forall|k: int| 0 <= k < files.len() ==> (#[trigger] files[k]).0 != vendor) ==> rule_in(
            files,
            vendor,
            model,
        ) is None,
{
    model::lemma_index_from(files, vendor, 0);
}

/// A price file that is too large is refused before it is read, one that is no
/// document with the reader's message, and any other is read as it is.
pub proof fn price_file_is_read_within_the_limit(body: &str, path: Seq<char>)
    ensures
        file_cache::oversized(body) ==> vendor_parsed(body, path) is Err && vendor_parsed(
            body,
            path,
        )->Err_0 == "file"@ + " is larger than 33554432 bytes"@,
        !file_cache::oversized(body) && json::json_parsed(body@) is Err ==> vendor_parsed(body, path) is Err
            && vendor_parsed(body, path)->Err_0 == json::json_parsed(body@)->Err_0,
        !file_cache::oversized(body) && json::json_parsed(body@) is Ok ==> vendor_parsed(body, path)
            == vendor_models(json::json_parsed(body@)->Ok_0, path),
{
}

} // verus!
