//! JSON documents, and the rate rules written in them.
//!
//! `serde_json` parses the text and holds the document. What a document holds
//! is a [`Json`] tree, and everything that is read from it is stated over that
//! tree.

use crate::config_types::{
    ContextTierFile, ContextTierFileView, CostFile, CostFileView, ModelPricingRuleFile,
    ModelPricingRuleFileView, Number, NumberView, OnRuleExpiry, ScheduleRuleFile,
    ScheduleRuleFileView, TariffFile, TariffFileView,
};
use crate::model;
use crate::rate::Rate;
use crate::text;
use vstd::prelude::*;

verus! {

/// A number of a document in the three forms in which it can be read.
pub struct JsonNumber {
    pub float: NumberView,
    pub signed: Option<i64>,
    pub unsigned: Option<u64>,
}

/// What a JSON value is. The entries of an object have different keys.
pub enum Json {
    Null,
    Bool(bool),
    Number(JsonNumber),
    Text(Seq<char>),
    List(Seq<Json>),
    Object(Seq<(Seq<char>, Json)>),
}

/// `serde_json::Value`, whose contents are a [`Json`] tree.
#[verifier::external_type_specification]
#[verifier::external_body]
pub struct ExValue(serde_json::Value);

/// What a `serde_json::Value` holds.
pub uninterp spec fn json_tree(value: serde_json::Value) -> Json;

/// What `serde_json::from_str` makes of a text: a document, or the message of
/// its error.
pub uninterp spec fn json_parsed(text: Seq<char>) -> Result<Json, Seq<char>>;

/// The trees of a list of values.
pub open spec fn trees(values: Seq<serde_json::Value>) -> Seq<Json> {
    values.map_values(|v: serde_json::Value| json_tree(v))
}

/// The entries of an object; none for anything else.
pub open spec fn entries_of(json: Json) -> Seq<(Seq<char>, Json)> {
    match json {
        Json::Object(entries) => entries,
        _ => Seq::empty(),
    }
}

/// The value of an object's field.
pub open spec fn field(json: Json, key: Seq<char>) -> Option<Json> {
    model::get(entries_of(json), key)
}

/// `serde_json::from_str` into a `Value`: the document that a text is, or the
/// text of the error. The result depends on the text alone.
#[verifier::external_body]
pub(crate) fn parse_json(body: &str) -> (r: Result<serde_json::Value, String>)
    ensures
        json_parsed(body@) == match r {
            Ok(value) => Ok::<Json, Seq<char>>(json_tree(value)),
            Err(message) => Err::<Json, Seq<char>>(message@),
        },
{
    serde_json::from_str(body).map_err(|e| e.to_string())
}

/// `serde_json::Value::get` with a text: the value under that key of an object,
/// and nothing for any other value.
#[verifier::external_body]
pub(crate) fn json_field<'a>(value: &'a serde_json::Value, key: &str) -> (r: Option<
    &'a serde_json::Value,
>)
    ensures
        match r {
            Some(v) => field(json_tree(*value), key@) == Some(json_tree(*v)),
            None => field(json_tree(*value), key@) is None,
        },
{
    value.get(key)
}

/// `serde_json::Value::as_object`, of which the keys are taken: those of an
/// object in the order of its entries, each once, and nothing for any other
/// value.
#[verifier::external_body]
pub(crate) fn json_keys(value: &serde_json::Value) -> (r: Option<Vec<String>>)
    ensures
        r is Some == (json_tree(*value) is Object),
        r is Some ==> {
            &&& r->Some_0@.len() == entries_of(json_tree(*value)).len()
            &&& forall|i: int|
                0 <= i < r->Some_0@.len() ==> (#[trigger] r->Some_0@[i])@ == entries_of(
                    json_tree(*value),
                )[i].0
            &&& forall|i: int, j: int|
                0 <= i < j < r->Some_0@.len() ==> (#[trigger] r->Some_0@[i])@ != (
                #[trigger] r->Some_0@[j])@
        },
{
    value.as_object().map(|map| map.keys().cloned().collect())
}

/// `serde_json::Value::as_array`: the values of a list, and nothing for any
/// other value.
#[verifier::external_body]
pub(crate) fn json_items<'a>(value: &'a serde_json::Value) -> (r: Option<
    &'a Vec<serde_json::Value>,
>)
    ensures
        match r {
            Some(items) => json_tree(*value) == Json::List(trees(items@)),
            None => !(json_tree(*value) is List),
        },
{
    value.as_array()
}

/// `serde_json::Value::as_f64`: a number's binary64 form with the text it
/// prints as, and nothing for any other value.
#[verifier::external_body]
pub(crate) fn json_number(value: &serde_json::Value) -> (r: Option<Number>)
    ensures
        match r {
            Some(n) => json_tree(*value) is Number && json_tree(*value)->Number_0.float == n@,
            None => !(json_tree(*value) is Number),
        },
{
    value.as_f64().map(|x| Number { rate: Rate { bits: x.to_bits() }, text: x.to_string() })
}

/// `serde_json::Value::as_i64`: an integer that fits, and nothing for any other
/// value.
#[verifier::external_body]
pub(crate) fn json_signed(value: &serde_json::Value) -> (r: Option<i64>)
    ensures
        r == match json_tree(*value) {
            Json::Number(n) => n.signed,
            _ => None,
        },
{
    value.as_i64()
}

/// `serde_json::Value::as_u64`: an integer that fits, and nothing for any other
/// value.
#[verifier::external_body]
pub(crate) fn json_unsigned(value: &serde_json::Value) -> (r: Option<u64>)
    ensures
        r == match json_tree(*value) {
            Json::Number(n) => n.unsigned,
            _ => None,
        },
{
    value.as_u64()
}

/// `serde_json::Value::as_str`: the text of a string, and nothing for any other
/// value.
#[verifier::external_body]
pub(crate) fn json_text<'a>(value: &'a serde_json::Value) -> (r: Option<&'a str>)
    ensures
        match r {
            Some(s) => json_tree(*value) == Json::Text(s@),
            None => !(json_tree(*value) is Text),
        },
{
    value.as_str()
}

/// `serde_json::Value::is_null`.
#[verifier::external_body]
pub(crate) fn json_is_null(value: &serde_json::Value) -> (r: bool)
    ensures
        r == (json_tree(*value) is Null),
{
    value.is_null()
}

/// The value under the key of an entry is that entry's value, where every key
/// occurs once.
pub proof fn lemma_distinct_get<V>(entries: Seq<(Seq<char>, V)>, index: int)
    requires
        0 <= index < entries.len(),
        forall|i: int, j: int|
            0 <= i < j < entries.len() ==> (#[trigger] entries[i]).0 != (#[trigger] entries[j]).0,
    ensures
        model::get(entries, entries[index].0) == Some(entries[index].1),
{
    model::lemma_index_from(entries, entries[index].0, 0);
}

/// An optional number: left out or null, or a number.
pub open spec fn number_read(value: Option<Json>) -> Result<Option<NumberView>, ()> {
    match value {
        None => Ok(None),
        Some(Json::Null) => Ok(None),
        Some(Json::Number(n)) => Ok(Some(n.float)),
        Some(_) => Err(()),
    }
}

fn read_number(object: &serde_json::Value, key: &str) -> (r: Result<Option<Number>, ()>)
    ensures
        match r {
            Ok(n) => number_read(field(json_tree(*object), key@)) == Ok::<Option<NumberView>, ()>(
                model::opt_view(n),
            ),
            Err(_) => number_read(field(json_tree(*object), key@)) is Err,
        },
{
    match json_field(object, key) {
        None => Ok(None),
        Some(value) => {
            if json_is_null(value) {
                return Ok(None);
            }
            match json_number(value) {
                Some(n) => Ok(Some(n)),
                None => Err(()),
            }
        },
    }
}

/// An optional text: left out or null, or a text.
pub open spec fn text_read(value: Option<Json>) -> Result<Option<Seq<char>>, ()> {
    match value {
        None => Ok(None),
        Some(Json::Null) => Ok(None),
        Some(Json::Text(s)) => Ok(Some(s)),
        Some(_) => Err(()),
    }
}

fn read_text(object: &serde_json::Value, key: &str) -> (r: Result<Option<String>, ()>)
    ensures
        match r {
            Ok(s) => text_read(field(json_tree(*object), key@)) == Ok::<Option<Seq<char>>, ()>(
                model::opt_view(s),
            ),
            Err(_) => text_read(field(json_tree(*object), key@)) is Err,
        },
{
    match json_field(object, key) {
        None => Ok(None),
        Some(value) => {
            if json_is_null(value) {
                return Ok(None);
            }
            match json_text(value) {
                Some(s) => Ok(Some(text::owned(s))),
                None => Err(()),
            }
        },
    }
}

/// The rates of a tariff.
pub open spec fn tariff_read(json: Json) -> Result<TariffFileView, ()> {
    if !(json is Object) {
        Err(())
    } else {
        match (
            number_read(field(json, "input"@)),
            number_read(field(json, "output"@)),
            number_read(field(json, "cache_read"@)),
            number_read(field(json, "cache_write"@)),
            number_read(field(json, "multiplier"@)),
        ) {
            (Ok(input), Ok(output), Ok(cache_read), Ok(cache_write), Ok(multiplier)) => Ok(
                TariffFileView { input, output, cache_read, cache_write, multiplier },
            ),
            _ => Err(()),
        }
    }
}

fn is_object(value: &serde_json::Value) -> (r: bool)
    ensures
        r == (json_tree(*value) is Object),
{
    json_keys(value).is_some()
}

fn read_tariff(value: &serde_json::Value) -> (r: Result<TariffFile, ()>)
    ensures
        match r {
            Ok(t) => tariff_read(json_tree(*value)) == Ok::<TariffFileView, ()>(t@),
            Err(_) => tariff_read(json_tree(*value)) is Err,
        },
{
    if !is_object(value) {
        return Err(());
    }
    match (
        read_number(value, "input"),
        read_number(value, "output"),
        read_number(value, "cache_read"),
        read_number(value, "cache_write"),
        read_number(value, "multiplier"),
    ) {
        (Ok(input), Ok(output), Ok(cache_read), Ok(cache_write), Ok(multiplier)) => Ok(
            TariffFile { input, output, cache_read, cache_write, multiplier },
        ),
        _ => Err(()),
    }
}

/// A `cost` table: left out or null, or an object of rates.
pub open spec fn cost_read(value: Option<Json>) -> Result<Option<CostFileView>, ()> {
    match value {
        None => Ok(None),
        Some(Json::Null) => Ok(None),
        Some(json) => if !(json is Object) {
            Err(())
        } else {
            match (
                number_read(field(json, "input"@)),
                number_read(field(json, "output"@)),
                number_read(field(json, "cache_read"@)),
                number_read(field(json, "cache_write"@)),
            ) {
                (Ok(input), Ok(output), Ok(cache_read), Ok(cache_write)) => Ok(
                    Some(CostFileView { input, output, cache_read, cache_write }),
                ),
                _ => Err(()),
            }
        },
    }
}

fn read_cost(object: &serde_json::Value) -> (r: Result<Option<CostFile>, ()>)
    ensures
        match r {
            Ok(c) => cost_read(field(json_tree(*object), "cost"@)) == Ok::<
                Option<CostFileView>,
                (),
            >(model::opt_view(c)),
            Err(_) => cost_read(field(json_tree(*object), "cost"@)) is Err,
        },
{
    match json_field(object, "cost") {
        None => Ok(None),
        Some(value) => {
            if json_is_null(value) {
                return Ok(None);
            }
            if !is_object(value) {
                return Err(());
            }
            match (
                read_number(value, "input"),
                read_number(value, "output"),
                read_number(value, "cache_read"),
                read_number(value, "cache_write"),
            ) {
                (Ok(input), Ok(output), Ok(cache_read), Ok(cache_write)) => Ok(
                    Some(CostFile { input, output, cache_read, cache_write }),
                ),
                _ => Err(()),
            }
        },
    }
}

/// The items of a list; a list that is left out has none.
pub open spec fn items_read(value: Option<Json>) -> Result<Seq<Json>, ()> {
    match value {
        None => Ok(Seq::empty()),
        Some(Json::List(items)) => Ok(items),
        Some(_) => Err(()),
    }
}

/// A text among others.
pub open spec fn text_step() -> spec_fn(int, Json) -> Result<Seq<char>, ()> {
    |i: int, json: Json|
        match json {
            Json::Text(s) => Ok(s),
            _ => Err(()),
        }
}

/// A list of texts.
pub open spec fn texts_read(value: Option<Json>) -> Result<Seq<Seq<char>>, ()> {
    match items_read(value) {
        Ok(items) => model::collect(items, text_step()),
        Err(_) => Err(()),
    }
}

fn read_texts(object: &serde_json::Value, key: &str) -> (r: Result<Vec<String>, ()>)
    ensures
        match r {
            Ok(v) => texts_read(field(json_tree(*object), key@)) == Ok::<Seq<Seq<char>>, ()>(
                model::seq_view(v@),
            ),
            Err(_) => texts_read(field(json_tree(*object), key@)) is Err,
        },
{
    let mut out: Vec<String> = Vec::new();
    assert(model::seq_view(out@) =~= Seq::empty());
    let items = match json_field(object, key) {
        None => {
            return Ok(out);
        },
        Some(value) => match json_items(value) {
            Some(items) => items,
            None => {
                return Err(());
            },
        },
    };
    let ghost s = trees(items@);
    let ghost f = text_step();
    let mut i: usize = 0;
    while i < items.len()
        invariant
            i <= items@.len(),
            s == trees(items@),
            f == text_step(),
            model::collect(s.take(i as int), f) == Ok::<Seq<Seq<char>>, ()>(
                model::seq_view(out@),
            ),
            texts_read(field(json_tree(*object), key@)) == model::collect(s, f),
        decreases items.len() - i,
    {
        proof {
            model::lemma_collect_step(s, f, i as int);
        }
        match json_text(&items[i]) {
            Some(entry) => {
                let ghost before = model::seq_view(out@);
                out.push(text::owned(entry));
                assert(model::seq_view(out@) =~= before.push(entry@));
            },
            None => {
                proof {
                    model::lemma_collect_fails(s, f, i + 1);
                }
                return Err(());
            },
        }
        i += 1;
    }
    assert(s.take(i as int) =~= s);
    Ok(out)
}

/// The start and end of a window: a list of two texts.
pub open spec fn pair_step() -> spec_fn(int, Json) -> Result<(Seq<char>, Seq<char>), ()> {
    |i: int, json: Json|
        match json {
            Json::List(parts) => if parts.len() == 2 && parts[0] is Text && parts[1] is Text {
                Ok((parts[0]->Text_0, parts[1]->Text_0))
            } else {
                Err(())
            },
            _ => Err(()),
        }
}

/// A list of windows.
pub open spec fn windows_read(value: Option<Json>) -> Result<Seq<(Seq<char>, Seq<char>)>, ()> {
    match items_read(value) {
        Ok(items) => model::collect(items, pair_step()),
        Err(_) => Err(()),
    }
}

fn read_pair(value: &serde_json::Value) -> (r: Result<(String, String), ()>)
    ensures
        match r {
            Ok(p) => pair_step()(0, json_tree(*value)) == Ok::<(Seq<char>, Seq<char>), ()>(
                (p.0@, p.1@),
            ),
            Err(_) => pair_step()(0, json_tree(*value)) is Err,
        },
{
    match json_items(value) {
        Some(parts) => {
            if parts.len() != 2 {
                return Err(());
            }
            assert(trees(parts@)[0] == json_tree(parts@[0]));
            assert(trees(parts@)[1] == json_tree(parts@[1]));
            match (json_text(&parts[0]), json_text(&parts[1])) {
                (Some(start), Some(end)) => Ok((text::owned(start), text::owned(end))),
                _ => Err(()),
            }
        },
        None => Err(()),
    }
}

fn read_windows(object: &serde_json::Value) -> (r: Result<Vec<(String, String)>, ()>)
    ensures
        match r {
            Ok(v) => windows_read(field(json_tree(*object), "windows"@)) == Ok::<
                Seq<(Seq<char>, Seq<char>)>,
                (),
            >(model::keyed_view(v@)),
            Err(_) => windows_read(field(json_tree(*object), "windows"@)) is Err,
        },
{
    let mut out: Vec<(String, String)> = Vec::new();
    assert(model::keyed_view(out@) =~= Seq::empty());
    let items = match json_field(object, "windows") {
        None => {
            return Ok(out);
        },
        Some(value) => match json_items(value) {
            Some(items) => items,
            None => {
                return Err(());
            },
        },
    };
    let ghost s = trees(items@);
    let ghost f = pair_step();
    let mut i: usize = 0;
    while i < items.len()
        invariant
            i <= items@.len(),
            s == trees(items@),
            f == pair_step(),
            model::collect(s.take(i as int), f) == Ok::<Seq<(Seq<char>, Seq<char>)>, ()>(
                model::keyed_view(out@),
            ),
            windows_read(field(json_tree(*object), "windows"@)) == model::collect(s, f),
        decreases items.len() - i,
    {
        proof {
            model::lemma_collect_step(s, f, i as int);
            assert(f(i as int, s[i as int]) == f(0, s[i as int]));
        }
        match read_pair(&items[i]) {
            Ok(pair) => {
                let ghost before = model::keyed_view(out@);
                out.push(pair);
                assert(model::keyed_view(out@) =~= before.push((pair.0@, pair.1@)));
            },
            Err(_) => {
                proof {
                    model::lemma_collect_fails(s, f, i + 1);
                }
                return Err(());
            },
        }
        i += 1;
    }
    assert(s.take(i as int) =~= s);
    Ok(out)
}

/// An offset in minutes: left out, or an integer that fits.
pub open spec fn offset_read(value: Option<Json>) -> Result<i32, ()> {
    match value {
        None => Ok(0),
        Some(Json::Number(n)) => match n.signed {
            Some(m) => if i32::MIN <= m <= i32::MAX {
                Ok(m as i32)
            } else {
                Err(())
            },
            None => Err(()),
        },
        Some(_) => Err(()),
    }
}

fn read_offset(object: &serde_json::Value) -> (r: Result<i32, ()>)
    ensures
        r == offset_read(field(json_tree(*object), "utc_offset_minutes"@)),
{
    match json_field(object, "utc_offset_minutes") {
        None => Ok(0),
        Some(value) => match json_signed(value) {
            Some(m) => if -0x8000_0000 <= m && m <= 0x7fff_ffff {
                Ok(m as i32)
            } else {
                Err(())
            },
            None => Err(()),
        },
    }
}

/// The name of a tariff: left out, or a text.
pub open spec fn name_read(value: Option<Json>) -> Result<Seq<char>, ()> {
    match value {
        None => Ok(Seq::empty()),
        Some(Json::Text(s)) => Ok(s),
        Some(_) => Err(()),
    }
}

fn read_name(object: &serde_json::Value) -> (r: Result<String, ()>)
    ensures
        match r {
            Ok(s) => name_read(field(json_tree(*object), "tariff"@)) == Ok::<Seq<char>, ()>(s@),
            Err(_) => name_read(field(json_tree(*object), "tariff"@)) is Err,
        },
{
    match json_field(object, "tariff") {
        None => Ok(String::new()),
        Some(value) => match json_text(value) {
            Some(s) => Ok(text::owned(s)),
            None => Err(()),
        },
    }
}

/// One schedule entry.
pub open spec fn schedule_read(json: Json) -> Result<ScheduleRuleFileView, ()> {
    if !(json is Object) {
        Err(())
    } else {
        match (
            name_read(field(json, "tariff"@)),
            offset_read(field(json, "utc_offset_minutes"@)),
            texts_read(field(json, "weekdays"@)),
            windows_read(field(json, "windows"@)),
        ) {
            (Ok(tariff), Ok(utc_offset_minutes), Ok(weekdays), Ok(windows)) => Ok(
                ScheduleRuleFileView { tariff, utc_offset_minutes, weekdays, windows },
            ),
            _ => Err(()),
        }
    }
}

fn read_schedule(value: &serde_json::Value) -> (r: Result<ScheduleRuleFile, ()>)
    ensures
        match r {
            Ok(e) => schedule_read(json_tree(*value)) == Ok::<ScheduleRuleFileView, ()>(e@),
            Err(_) => schedule_read(json_tree(*value)) is Err,
        },
{
    if !is_object(value) {
        return Err(());
    }
    match (read_name(value), read_offset(value), read_texts(value, "weekdays"), read_windows(
        value,
    )) {
        (Ok(tariff), Ok(utc_offset_minutes), Ok(weekdays), Ok(windows)) => Ok(
            ScheduleRuleFile { tariff, utc_offset_minutes, weekdays, windows },
        ),
        _ => Err(()),
    }
}

pub open spec fn schedule_item() -> spec_fn(int, Json) -> Result<ScheduleRuleFileView, ()> {
    |i: int, json: Json| schedule_read(json)
}

/// A list of schedule entries.
pub open spec fn schedules_read(value: Option<Json>) -> Result<Seq<ScheduleRuleFileView>, ()> {
    match items_read(value) {
        Ok(items) => model::collect(items, schedule_item()),
        Err(_) => Err(()),
    }
}

fn read_schedules(object: &serde_json::Value) -> (r: Result<Vec<ScheduleRuleFile>, ()>)
    ensures
        match r {
            Ok(v) => schedules_read(field(json_tree(*object), "schedule"@)) == Ok::<
                Seq<ScheduleRuleFileView>,
                (),
            >(model::seq_view(v@)),
            Err(_) => schedules_read(field(json_tree(*object), "schedule"@)) is Err,
        },
{
    let mut out: Vec<ScheduleRuleFile> = Vec::new();
    assert(model::seq_view(out@) =~= Seq::empty());
    let items = match json_field(object, "schedule") {
        None => {
            return Ok(out);
        },
        Some(value) => match json_items(value) {
            Some(items) => items,
            None => {
                return Err(());
            },
        },
    };
    let ghost s = trees(items@);
    let ghost f = schedule_item();
    let mut i: usize = 0;
    while i < items.len()
        invariant
            i <= items@.len(),
            s == trees(items@),
            f == schedule_item(),
            model::collect(s.take(i as int), f) == Ok::<Seq<ScheduleRuleFileView>, ()>(
                model::seq_view(out@),
            ),
            schedules_read(field(json_tree(*object), "schedule"@)) == model::collect(s, f),
        decreases items.len() - i,
    {
        proof {
            model::lemma_collect_step(s, f, i as int);
        }
        match read_schedule(&items[i]) {
            Ok(entry) => {
                let ghost before = model::seq_view(out@);
                out.push(entry);
                assert(model::seq_view(out@) =~= before.push(entry@));
            },
            Err(_) => {
                proof {
                    model::lemma_collect_fails(s, f, i + 1);
                }
                return Err(());
            },
        }
        i += 1;
    }
    assert(s.take(i as int) =~= s);
    Ok(out)
}

/// A count: left out or null, or an integer of at least zero.
pub open spec fn count_read(value: Option<Json>) -> Result<Option<u64>, ()> {
    match value {
        None => Ok(None),
        Some(Json::Null) => Ok(None),
        Some(Json::Number(n)) => match n.unsigned {
            Some(m) => Ok(Some(m)),
            None => Err(()),
        },
        Some(_) => Err(()),
    }
}

fn read_count(object: &serde_json::Value) -> (r: Result<Option<u64>, ()>)
    ensures
        r == count_read(field(json_tree(*object), "min_input_tokens"@)),
{
    match json_field(object, "min_input_tokens") {
        None => Ok(None),
        Some(value) => {
            if json_is_null(value) {
                return Ok(None);
            }
            match json_unsigned(value) {
                Some(m) => Ok(Some(m)),
                None => Err(()),
            }
        },
    }
}

/// One long-context tier.
pub open spec fn tier_read(json: Json) -> Result<ContextTierFileView, ()> {
    match (tariff_read(json), count_read(field(json, "min_input_tokens"@))) {
        (Ok(tariff), Ok(min_input_tokens)) => Ok(ContextTierFileView { min_input_tokens, tariff }),
        _ => Err(()),
    }
}

fn read_tier(value: &serde_json::Value) -> (r: Result<ContextTierFile, ()>)
    ensures
        match r {
            Ok(t) => tier_read(json_tree(*value)) == Ok::<ContextTierFileView, ()>(t@),
            Err(_) => tier_read(json_tree(*value)) is Err,
        },
{
    match (read_tariff(value), read_count(value)) {
        (Ok(t), Ok(min_input_tokens)) => Ok(
            ContextTierFile {
                min_input_tokens,
                input: t.input,
                output: t.output,
                cache_read: t.cache_read,
                cache_write: t.cache_write,
                multiplier: t.multiplier,
            },
        ),
        _ => Err(()),
    }
}

pub open spec fn tier_item() -> spec_fn(int, Json) -> Result<ContextTierFileView, ()> {
    |i: int, json: Json| tier_read(json)
}

/// A list of long-context tiers.
pub open spec fn tiers_read(value: Option<Json>) -> Result<Seq<ContextTierFileView>, ()> {
    match items_read(value) {
        Ok(items) => model::collect(items, tier_item()),
        Err(_) => Err(()),
    }
}

fn read_tiers(object: &serde_json::Value) -> (r: Result<Vec<ContextTierFile>, ()>)
    ensures
        match r {
            Ok(v) => tiers_read(field(json_tree(*object), "context_tiers"@)) == Ok::<
                Seq<ContextTierFileView>,
                (),
            >(model::seq_view(v@)),
            Err(_) => tiers_read(field(json_tree(*object), "context_tiers"@)) is Err,
        },
{
    let mut out: Vec<ContextTierFile> = Vec::new();
    assert(model::seq_view(out@) =~= Seq::empty());
    let items = match json_field(object, "context_tiers") {
        None => {
            return Ok(out);
        },
        Some(value) => match json_items(value) {
            Some(items) => items,
            None => {
                return Err(());
            },
        },
    };
    let ghost s = trees(items@);
    let ghost f = tier_item();
    let mut i: usize = 0;
    while i < items.len()
        invariant
            i <= items@.len(),
            s == trees(items@),
            f == tier_item(),
            model::collect(s.take(i as int), f) == Ok::<Seq<ContextTierFileView>, ()>(
                model::seq_view(out@),
            ),
            tiers_read(field(json_tree(*object), "context_tiers"@)) == model::collect(s, f),
        decreases items.len() - i,
    {
        proof {
            model::lemma_collect_step(s, f, i as int);
        }
        match read_tier(&items[i]) {
            Ok(entry) => {
                let ghost before = model::seq_view(out@);
                out.push(entry);
                assert(model::seq_view(out@) =~= before.push(entry@));
            },
            Err(_) => {
                proof {
                    model::lemma_collect_fails(s, f, i + 1);
                }
                return Err(());
            },
        }
        i += 1;
    }
    assert(s.take(i as int) =~= s);
    Ok(out)
}

pub open spec fn tariff_item() -> spec_fn(int, (Seq<char>, Json)) -> Result<
    (Seq<char>, TariffFileView),
    (),
> {
    |i: int, named: (Seq<char>, Json)|
        match tariff_read(named.1) {
            Ok(tariff) => Ok((named.0, tariff)),
            Err(_) => Err(()),
        }
}

/// The named tariffs: left out, or an object of tariffs.
pub open spec fn tariffs_read(value: Option<Json>) -> Result<
    Seq<(Seq<char>, TariffFileView)>,
    (),
> {
    match value {
        None => Ok(Seq::empty()),
        Some(Json::Object(entries)) => model::collect(entries, tariff_item()),
        Some(_) => Err(()),
    }
}

fn read_tariffs(object: &serde_json::Value) -> (r: Result<Vec<(String, TariffFile)>, ()>)
    ensures
        match r {
            Ok(v) => tariffs_read(field(json_tree(*object), "tariffs"@)) == Ok::<
                Seq<(Seq<char>, TariffFileView)>,
                (),
            >(model::keyed_view(v@)),
            Err(_) => tariffs_read(field(json_tree(*object), "tariffs"@)) is Err,
        },
{
    let mut out: Vec<(String, TariffFile)> = Vec::new();
    assert(model::keyed_view(out@) =~= Seq::empty());
    let value = match json_field(object, "tariffs") {
        None => {
            return Ok(out);
        },
        Some(value) => value,
    };
    let keys = match json_keys(value) {
        Some(keys) => keys,
        None => {
            return Err(());
        },
    };
    let ghost s = entries_of(json_tree(*value));
    let ghost f = tariff_item();
    let mut i: usize = 0;
    while i < keys.len()
        invariant
            i <= keys@.len(),
            s == entries_of(json_tree(*value)),
            f == tariff_item(),
            keys@.len() == s.len(),
            forall|k: int| 0 <= k < keys@.len() ==> (#[trigger] keys@[k])@ == s[k].0,
            forall|a: int, b: int|
                0 <= a < b < keys@.len() ==> (#[trigger] keys@[a])@ != (#[trigger] keys@[b])@,
            model::collect(s.take(i as int), f) == Ok::<Seq<(Seq<char>, TariffFileView)>, ()>(
                model::keyed_view(out@),
            ),
            tariffs_read(field(json_tree(*object), "tariffs"@)) == model::collect(s, f),
        decreases keys.len() - i,
    {
        proof {
            model::lemma_collect_step(s, f, i as int);
            assert forall|a: int, b: int| 0 <= a < b < s.len() implies (#[trigger] s[a]).0 != (
            #[trigger] s[b]).0 by {
                assert(keys@[a]@ != keys@[b]@);
            }
            lemma_distinct_get(s, i as int);
            assert(keys@[i as int]@ == s[i as int].0);
        }
        let name = keys[i].as_str();
        let tariff = match json_field(value, name) {
            Some(tariff) => tariff,
            None => {
                return Err(());
            },
        };
        match read_tariff(tariff) {
            Ok(tariff) => {
                let ghost before = model::keyed_view(out@);
                out.push((text::owned(name), tariff));
                assert(model::keyed_view(out@) =~= before.push((name@, tariff@)));
            },
            Err(_) => {
                proof {
                    model::lemma_collect_fails(s, f, i + 1);
                }
                return Err(());
            },
        }
        i += 1;
    }
    assert(s.take(i as int) =~= s);
    Ok(out)
}

/// What to do on expiry: one of the two known names, and else unset.
pub open spec fn expiry_read(value: Option<Json>) -> Option<OnRuleExpiry> {
    match value {
        Some(Json::Text(s)) => if s == "fallback"@ {
            Some(OnRuleExpiry::Fallback)
        } else if s == "no_price"@ {
            Some(OnRuleExpiry::NoPrice)
        } else {
            None
        },
        _ => None,
    }
}

fn read_expiry(object: &serde_json::Value) -> (r: Option<OnRuleExpiry>)
    ensures
        r == expiry_read(field(json_tree(*object), "on_rule_expiry"@)),
{
    match json_field(object, "on_rule_expiry") {
        None => None,
        Some(value) => match json_text(value) {
            Some(s) => if text::same(s, "fallback") {
                Some(OnRuleExpiry::Fallback)
            } else if text::same(s, "no_price") {
                Some(OnRuleExpiry::NoPrice)
            } else {
                None
            },
            None => None,
        },
    }
}

/// A rate rule without its cost table.
pub open spec fn extension_read(json: Json) -> Result<ModelPricingRuleFileView, ()> {
    match (
        tariffs_read(field(json, "tariffs"@)),
        schedules_read(field(json, "schedule"@)),
        tiers_read(field(json, "context_tiers"@)),
        text_read(field(json, "default_tariff"@)),
        text_read(field(json, "effective_from"@)),
        text_read(field(json, "effective_until"@)),
    ) {
        (
            Ok(tariffs),
            Ok(schedule),
            Ok(context_tiers),
            Ok(default_tariff),
            Ok(effective_from),
            Ok(effective_until),
        ) => Ok(
            ModelPricingRuleFileView {
                cost: None,
                tariffs,
                schedule,
                context_tiers,
                default_tariff,
                effective_from,
                effective_until,
                on_rule_expiry: expiry_read(field(json, "on_rule_expiry"@)),
            },
        ),
        _ => Err(()),
    }
}

/// Read a rate rule without its cost table.
pub fn read_extension(value: &serde_json::Value) -> (r: Result<ModelPricingRuleFile, ()>)
    ensures
        match r {
            Ok(rule) => extension_read(json_tree(*value)) == Ok::<ModelPricingRuleFileView, ()>(
                rule@,
            ),
            Err(_) => extension_read(json_tree(*value)) is Err,
        },
{
    match (
        read_tariffs(value),
        read_schedules(value),
        read_tiers(value),
        read_text(value, "default_tariff"),
        read_text(value, "effective_from"),
        read_text(value, "effective_until"),
    ) {
        (
            Ok(tariffs),
            Ok(schedule),
            Ok(context_tiers),
            Ok(default_tariff),
            Ok(effective_from),
            Ok(effective_until),
        ) => Ok(
            ModelPricingRuleFile {
                cost: None,
                tariffs,
                schedule,
                context_tiers,
                default_tariff,
                effective_from,
                effective_until,
                on_rule_expiry: read_expiry(value),
            },
        ),
        _ => Err(()),
    }
}

/// A rate rule: an object whose fields have the right shape.
pub open spec fn rule_read(json: Json) -> Result<ModelPricingRuleFileView, ()> {
    if !(json is Object) {
        Err(())
    } else {
        match (extension_read(json), cost_read(field(json, "cost"@))) {
            (Ok(rule), Ok(cost)) => Ok(ModelPricingRuleFileView { cost, ..rule }),
            _ => Err(()),
        }
    }
}

/// Read a rate rule. A field that is left out is unset, one that is unknown is
/// ignored, and one of the wrong shape makes the rule unreadable.
pub fn read_rule(value: &serde_json::Value) -> (r: Result<ModelPricingRuleFile, ()>)
    ensures
        match r {
            Ok(rule) => rule_read(json_tree(*value)) == Ok::<ModelPricingRuleFileView, ()>(rule@),
            Err(_) => rule_read(json_tree(*value)) is Err,
        },
{
    if !is_object(value) {
        return Err(());
    }
    match (read_extension(value), read_cost(value)) {
        (Ok(rule), Ok(cost)) => Ok(
            ModelPricingRuleFile {
                cost,
                tariffs: rule.tariffs,
                schedule: rule.schedule,
                context_tiers: rule.context_tiers,
                default_tariff: rule.default_tariff,
                effective_from: rule.effective_from,
                effective_until: rule.effective_until,
                on_rule_expiry: rule.on_rule_expiry,
            },
        ),
        _ => Err(()),
    }
}

/// Whether an object has this value under a key: the first of the key, where
/// there are several.
pub open spec fn member(json: Json, key: Seq<char>, value: Json) -> bool {
    json is Object && exists|i: int|
        0 <= i < json->Object_0.len() && #[trigger] json->Object_0[i] == (key, value) && forall|
            k: int,
        |
            0 <= k < i ==> (#[trigger] json->Object_0[k]).0 != key
}

/// Whether a value has nothing under a key.
pub open spec fn lacks(json: Json, key: Seq<char>) -> bool {
    json is Object ==> forall|k: int|
        0 <= k < json->Object_0.len() ==> (#[trigger] json->Object_0[k]).0 != key
}

/// A field is the member of that key.
pub proof fn field_is_the_member(json: Json, key: Seq<char>)
    ensures
        forall|value: Json| #[trigger] member(json, key, value) <==> field(json, key) == Some(value),
        lacks(json, key) <==> field(json, key) is None,
{
    let entries = entries_of(json);
    model::lemma_index_from(entries, key, 0);
    assert forall|value: Json| #[trigger] member(json, key, value) <==> field(json, key) == Some(
        value,
    ) by {
        if member(json, key, value) {
            let i = choose|i: int|
                0 <= i < json->Object_0.len() && #[trigger] json->Object_0[i] == (key, value)
                    && forall|k: int| 0 <= k < i ==> (#[trigger] json->Object_0[k]).0 != key;
            assert(entries[i].0 == key);
            let found = model::index_from(entries, key, 0)->Some_0;
            assert(entries[found].0 == key);
            assert(found == i);
        }
        if field(json, key) == Some(value) {
            let found = model::index_from(entries, key, 0)->Some_0;
            assert(json->Object_0[found] == (key, value));
        }
    }
    if json is Object {
        if field(json, key) is Some {
            let found = model::index_from(entries, key, 0)->Some_0;
            assert(json->Object_0[found].0 == key);
        } else {
            assert(entries == json->Object_0);
        }
    }
}

/// What a value says under a key, where a number may stand: that number, or
/// nothing where nothing or null stands there.
pub open spec fn says_number(json: Json, key: Seq<char>, value: Option<NumberView>) -> bool {
    match value {
        Some(number) => exists|n: JsonNumber| #[trigger] member(json, key, Json::Number(n))
            && n.float == number,
        None => lacks(json, key) || member(json, key, Json::Null),
    }
}

/// The same for a text.
pub open spec fn says_text(json: Json, key: Seq<char>, value: Option<Seq<char>>) -> bool {
    match value {
        Some(s) => member(json, key, Json::Text(s)),
        None => lacks(json, key) || member(json, key, Json::Null),
    }
}

/// The same for a count.
pub open spec fn says_count(json: Json, key: Seq<char>, value: Option<u64>) -> bool {
    match value {
        Some(count) => exists|n: JsonNumber| #[trigger] member(json, key, Json::Number(n))
            && n.unsigned == Some(count),
        None => lacks(json, key) || member(json, key, Json::Null),
    }
}

/// What a value says under a key, where a list may stand: its items, or none
/// where nothing stands there.
pub open spec fn says_items(json: Json, key: Seq<char>, items: Seq<Json>) -> bool {
    (lacks(json, key) && items.len() == 0) || member(json, key, Json::List(items))
}

proof fn lemma_numbers_and_texts(json: Json, key: Seq<char>)
    ensures
        forall|value: Option<NumberView>| #[trigger]
            says_number(json, key, value) <==> number_read(field(json, key)) == Ok::<_, ()>(value),
        forall|value: Option<Seq<char>>| #[trigger]
            says_text(json, key, value) <==> text_read(field(json, key)) == Ok::<_, ()>(value),
        forall|value: Option<u64>| #[trigger]
            says_count(json, key, value) <==> count_read(field(json, key)) == Ok::<_, ()>(value),
{
    field_is_the_member(json, key);
    assert forall|value: Option<NumberView>| #[trigger]
        says_number(json, key, value) <==> number_read(field(json, key)) == Ok::<_, ()>(value) by {
        if let Some(Json::Number(n)) = field(json, key) {
            assert(member(json, key, Json::Number(n)));
        }
    }
    assert forall|value: Option<u64>| #[trigger]
        says_count(json, key, value) <==> count_read(field(json, key)) == Ok::<_, ()>(value) by {
        if let Some(Json::Number(n)) = field(json, key) {
            assert(member(json, key, Json::Number(n)));
        }
    }
}

/// A tariff is read field by field, each from its own key: what is read is what
/// the object says, and an object that says it is read.
pub proof fn tariff_is_read_field_by_field(json: Json, tariff: TariffFileView)
    ensures
        tariff_read(json) == Ok::<_, ()>(tariff) <==> {
            &&& json is Object
            &&& says_number(json, "input"@, tariff.input)
            &&& says_number(json, "output"@, tariff.output)
            &&& says_number(json, "cache_read"@, tariff.cache_read)
            &&& says_number(json, "cache_write"@, tariff.cache_write)
            &&& says_number(json, "multiplier"@, tariff.multiplier)
        },
{
    lemma_numbers_and_texts(json, "input"@);
    lemma_numbers_and_texts(json, "output"@);
    lemma_numbers_and_texts(json, "cache_read"@);
    lemma_numbers_and_texts(json, "cache_write"@);
    lemma_numbers_and_texts(json, "multiplier"@);
}

/// A card is read field by field, each rate from its own key; nothing and null
/// are no card.
pub proof fn card_is_read_field_by_field(json: Json, card: CostFileView)
    ensures
        cost_read(None) == Ok::<Option<CostFileView>, ()>(None),
        cost_read(Some(Json::Null)) == Ok::<Option<CostFileView>, ()>(None),
        cost_read(Some(json)) == Ok::<_, ()>(Some(card)) <==> {
            &&& json is Object
            &&& says_number(json, "input"@, card.input)
            &&& says_number(json, "output"@, card.output)
            &&& says_number(json, "cache_read"@, card.cache_read)
            &&& says_number(json, "cache_write"@, card.cache_write)
        },
{
    lemma_numbers_and_texts(json, "input"@);
    lemma_numbers_and_texts(json, "output"@);
    lemma_numbers_and_texts(json, "cache_read"@);
    lemma_numbers_and_texts(json, "cache_write"@);
}

/// A tier is read as a tariff with the number of tokens that it begins at.
pub proof fn tier_is_read_field_by_field(json: Json, tier: ContextTierFileView)
    ensures
        tier_read(json) == Ok::<_, ()>(tier) <==> {
            &&& json is Object
            &&& says_count(json, "min_input_tokens"@, tier.min_input_tokens)
            &&& says_number(json, "input"@, tier.tariff.input)
            &&& says_number(json, "output"@, tier.tariff.output)
            &&& says_number(json, "cache_read"@, tier.tariff.cache_read)
            &&& says_number(json, "cache_write"@, tier.tariff.cache_write)
            &&& says_number(json, "multiplier"@, tier.tariff.multiplier)
        },
{
    tariff_is_read_field_by_field(json, tier.tariff);
    lemma_numbers_and_texts(json, "min_input_tokens"@);
}

proof fn lemma_items(json: Json, key: Seq<char>)
    ensures
        forall|items: Seq<Json>| #[trigger]
            says_items(json, key, items) <==> items_read(field(json, key)) == Ok::<_, ()>(items),
{
    field_is_the_member(json, key);
    assert forall|items: Seq<Json>| #[trigger]
        says_items(json, key, items) <==> items_read(field(json, key)) == Ok::<_, ()>(items) by {
        if items.len() == 0 {
            assert(items =~= Seq::empty());
        }
    }
}

proof fn lemma_collected<A, B>(
    items: Seq<A>,
    f: spec_fn(int, A) -> Result<B, ()>,
    values: Seq<B>,
)
    ensures
        model::collect(items, f) == Ok::<_, ()>(values) <==> values.len() == items.len() && forall|
            i: int,
        |
            0 <= i < items.len() ==> f(i, #[trigger] items[i]) == Ok::<_, ()>(values[i]),
    decreases items.len(),
{
    if items.len() > 0 {
        let front = items.drop_last();
        let n = items.len() - 1;
        if model::collect(items, f) == Ok::<_, ()>(values) {
            let done = model::collect(front, f)->Ok_0;
            lemma_collected(front, f, done);
            assert(values == done.push(f(n, items.last())->Ok_0));
            assert forall|i: int| 0 <= i < items.len() implies f(i, #[trigger] items[i]) == Ok::<
                _,
                (),
            >(values[i]) by {
                if i < n {
                    assert(front[i] == items[i]);
                }
            }
        }
        if values.len() == items.len() && forall|i: int|
            0 <= i < items.len() ==> f(i, #[trigger] items[i]) == Ok::<_, ()>(values[i]) {
            assert forall|i: int| 0 <= i < front.len() implies f(i, #[trigger] front[i]) == Ok::<
                _,
                (),
            >(values.drop_last()[i]) by {
                assert(front[i] == items[i]);
            }
            lemma_collected(front, f, values.drop_last());
            assert(f(n, items[n]) == Ok::<_, ()>(values[n]));
            assert(values.drop_last().push(values[n]) =~= values);
        }
    } else {
        assert(values.len() == 0 ==> values =~= Seq::empty());
    }
}

/// Whether an object says these texts under a key, in this order.
pub open spec fn says_texts(json: Json, key: Seq<char>, texts: Seq<Seq<char>>) -> bool {
    exists|items: Seq<Json>| #[trigger]
        says_items(json, key, items) && items.len() == texts.len() && forall|i: int|
            0 <= i < items.len() ==> #[trigger] items[i] == Json::Text(texts[i])
}

/// Whether an object says these pairs of texts under a key, in this order.
pub open spec fn says_pairs(json: Json, key: Seq<char>, pairs: Seq<(Seq<char>, Seq<char>)>) -> bool {
    exists|items: Seq<Json>| #[trigger]
        says_items(json, key, items) && items.len() == pairs.len() && forall|i: int|
            0 <= i < items.len() ==> (#[trigger] items[i]) is List && items[i]->List_0.len() == 2
                && items[i]->List_0[0] == Json::Text(pairs[i].0) && items[i]->List_0[1]
                == Json::Text(pairs[i].1)
}

/// Whether an object says this offset under a key; nothing there says zero.
pub open spec fn says_offset(json: Json, key: Seq<char>, offset: i32) -> bool {
    (lacks(json, key) && offset == 0) || exists|n: JsonNumber| #[trigger]
        member(json, key, Json::Number(n)) && n.signed == Some(offset as i64)
}

/// Whether an object says this name under a key; nothing there says the empty
/// one.
pub open spec fn says_name(json: Json, key: Seq<char>, name: Seq<char>) -> bool {
    (lacks(json, key) && name.len() == 0) || member(json, key, Json::Text(name))
}

proof fn lemma_lists(json: Json, key: Seq<char>)
    ensures
        forall|texts: Seq<Seq<char>>| #[trigger]
            says_texts(json, key, texts) <==> texts_read(field(json, key)) == Ok::<_, ()>(texts),
        forall|pairs: Seq<(Seq<char>, Seq<char>)>| #[trigger]
            says_pairs(json, key, pairs) <==> windows_read(field(json, key)) == Ok::<_, ()>(pairs),
        forall|offset: i32| #[trigger]
            says_offset(json, key, offset) <==> offset_read(field(json, key)) == Ok::<_, ()>(
                offset,
            ),
        forall|name: Seq<char>| #[trigger]
            says_name(json, key, name) <==> name_read(field(json, key)) == Ok::<_, ()>(name),
{
    lemma_items(json, key);
    field_is_the_member(json, key);
    assert forall|texts: Seq<Seq<char>>| #[trigger]
        says_texts(json, key, texts) <==> texts_read(field(json, key)) == Ok::<_, ()>(texts) by {
        if says_texts(json, key, texts) {
            let items = choose|items: Seq<Json>| #[trigger]
                says_items(json, key, items) && items.len() == texts.len() && forall|i: int|
                    0 <= i < items.len() ==> #[trigger] items[i] == Json::Text(texts[i]);
            lemma_collected(items, text_step(), texts);
        }
        if texts_read(field(json, key)) == Ok::<_, ()>(texts) {
            let items = items_read(field(json, key))->Ok_0;
            assert(says_items(json, key, items));
            lemma_collected(items, text_step(), texts);
            assert forall|i: int| 0 <= i < items.len() implies #[trigger] items[i] == Json::Text(
                texts[i],
            ) by {
                assert(text_step()(i, items[i]) == Ok::<_, ()>(texts[i]));
            }
        }
    }
    assert forall|pairs: Seq<(Seq<char>, Seq<char>)>| #[trigger]
        says_pairs(json, key, pairs) <==> windows_read(field(json, key)) == Ok::<_, ()>(pairs) by {
        if says_pairs(json, key, pairs) {
            let items = choose|items: Seq<Json>| #[trigger]
                says_items(json, key, items) && items.len() == pairs.len() && forall|i: int|
                    0 <= i < items.len() ==> (#[trigger] items[i]) is List
                        && items[i]->List_0.len() == 2 && items[i]->List_0[0] == Json::Text(
                        pairs[i].0,
                    ) && items[i]->List_0[1] == Json::Text(pairs[i].1);
            lemma_collected(items, pair_step(), pairs);
        }
        if windows_read(field(json, key)) == Ok::<_, ()>(pairs) {
            let items = items_read(field(json, key))->Ok_0;
            assert(says_items(json, key, items));
            lemma_collected(items, pair_step(), pairs);
            assert forall|i: int| 0 <= i < items.len() implies (#[trigger] items[i]) is List
                && items[i]->List_0.len() == 2 && items[i]->List_0[0] == Json::Text(pairs[i].0)
                && items[i]->List_0[1] == Json::Text(pairs[i].1) by {
                assert(pair_step()(i, items[i]) == Ok::<_, ()>(pairs[i]));
            }
        }
    }
    assert forall|offset: i32| #[trigger]
        says_offset(json, key, offset) <==> offset_read(field(json, key)) == Ok::<_, ()>(offset) by {
        if let Some(Json::Number(n)) = field(json, key) {
            assert(member(json, key, Json::Number(n)));
        }
    }
    assert forall|name: Seq<char>| #[trigger]
        says_name(json, key, name) <==> name_read(field(json, key)) == Ok::<_, ()>(name) by {
        if name.len() == 0 {
            assert(name =~= Seq::empty());
        }
    }
}

/// Whether an object says a schedule: the tariff, the offset, the days and the
/// windows, each under its own key.
pub open spec fn says_schedule(json: Json, rule: ScheduleRuleFileView) -> bool {
    &&& json is Object
    &&& says_name(json, "tariff"@, rule.tariff)
    &&& says_offset(json, "utc_offset_minutes"@, rule.utc_offset_minutes)
    &&& says_texts(json, "weekdays"@, rule.weekdays)
    &&& says_pairs(json, "windows"@, rule.windows)
}

/// A schedule is read field by field, each from its own key.
pub proof fn schedule_is_read_field_by_field(json: Json, rule: ScheduleRuleFileView)
    ensures
        schedule_read(json) == Ok::<_, ()>(rule) <==> says_schedule(json, rule),
{
    lemma_lists(json, "tariff"@);
    lemma_lists(json, "utc_offset_minutes"@);
    lemma_lists(json, "weekdays"@);
    lemma_lists(json, "windows"@);
}

/// Schedules are read one by one, in their order.
pub proof fn every_schedule_is_read(
    json: Json,
    key: Seq<char>,
    items: Seq<Json>,
    rules: Seq<ScheduleRuleFileView>,
)
    requires
        says_items(json, key, items),
    ensures
        schedules_read(field(json, key)) == Ok::<_, ()>(rules) <==> rules.len() == items.len()
            && forall|i: int|
            0 <= i < items.len() ==> says_schedule(#[trigger] items[i], rules[i]),
{
    lemma_items(json, key);
    lemma_collected(items, schedule_item(), rules);
    assert forall|i: int| 0 <= i < items.len() && i < rules.len() implies (schedule_item()(
        i,
        #[trigger] items[i],
    ) == Ok::<_, ()>(rules[i]) <==> says_schedule(items[i], rules[i])) by {
        schedule_is_read_field_by_field(items[i], rules[i]);
    }
    if rules.len() == items.len() {
        if forall|i: int| 0 <= i < items.len() ==> says_schedule(#[trigger] items[i], rules[i]) {
            assert forall|i: int| 0 <= i < items.len() implies schedule_item()(
                i,
                #[trigger] items[i],
            ) == Ok::<_, ()>(rules[i]) by {
                assert(says_schedule(items[i], rules[i]));
            }
        }
        if model::collect(items, schedule_item()) == Ok::<_, ()>(rules) {
            assert forall|i: int| 0 <= i < items.len() implies says_schedule(
                #[trigger] items[i],
                rules[i],
            ) by {
                assert(schedule_item()(i, items[i]) == Ok::<_, ()>(rules[i]));
            }
        }
    }
}

/// Tiers are read one by one, in their order.
pub proof fn every_tier_is_read(
    json: Json,
    key: Seq<char>,
    items: Seq<Json>,
    tiers: Seq<ContextTierFileView>,
)
    requires
        says_items(json, key, items),
    ensures
        tiers_read(field(json, key)) == Ok::<_, ()>(tiers) <==> tiers.len() == items.len()
            && forall|i: int|
            0 <= i < items.len() ==> tier_read(#[trigger] items[i]) == Ok::<_, ()>(tiers[i]),
{
    lemma_items(json, key);
    lemma_collected(items, tier_item(), tiers);
    if tiers.len() == items.len() && model::collect(items, tier_item()) == Ok::<_, ()>(tiers) {
        assert forall|i: int| 0 <= i < items.len() implies tier_read(#[trigger] items[i]) == Ok::<
            _,
            (),
        >(tiers[i]) by {
            assert(tier_item()(i, items[i]) == Ok::<_, ()>(tiers[i]));
        }
    }
}

/// Tariffs are read one by one, each under its own name.
pub proof fn every_tariff_is_read(
    json: Json,
    key: Seq<char>,
    tariffs: Seq<(Seq<char>, TariffFileView)>,
)
    ensures
        lacks(json, key) ==> (tariffs_read(field(json, key)) == Ok::<_, ()>(tariffs)
            <==> tariffs.len() == 0),
        forall|entries: Seq<(Seq<char>, Json)>| #[trigger]
            member(json, key, Json::Object(entries)) ==> (tariffs_read(field(json, key)) == Ok::<
                _,
                (),
            >(tariffs) <==> tariffs.len() == entries.len() && forall|i: int|
                0 <= i < entries.len() ==> tariffs[i].0 == (#[trigger] entries[i]).0 && tariff_read(
                    entries[i].1,
                ) == Ok::<_, ()>(tariffs[i].1)),
{
    field_is_the_member(json, key);
    if tariffs.len() == 0 {
        assert(tariffs =~= Seq::empty());
    }
    assert forall|entries: Seq<(Seq<char>, Json)>| #[trigger]
        member(json, key, Json::Object(entries)) implies (tariffs_read(field(json, key)) == Ok::<
        _,
        (),
    >(tariffs) <==> tariffs.len() == entries.len() && forall|i: int|
        0 <= i < entries.len() ==> tariffs[i].0 == (#[trigger] entries[i]).0 && tariff_read(
            entries[i].1,
        ) == Ok::<_, ()>(tariffs[i].1)) by {
        lemma_collected(entries, tariff_item(), tariffs);
        if model::collect(entries, tariff_item()) == Ok::<_, ()>(tariffs) {
            assert forall|i: int| 0 <= i < entries.len() implies tariffs[i].0 == (
            #[trigger] entries[i]).0 && tariff_read(entries[i].1) == Ok::<_, ()>(tariffs[i].1) by {
                assert(tariff_item()(i, entries[i]) == Ok::<_, ()>(tariffs[i]));
            }
        }
    }
}

/// What happens once a rule is out of effect is read from its word, and any
/// other word says nothing.
pub proof fn expiry_is_read_from_its_word(json: Json, key: Seq<char>)
    ensures
        member(json, key, Json::Text("fallback"@)) ==> expiry_read(field(json, key)) == Some(
            OnRuleExpiry::Fallback,
        ),
        member(json, key, Json::Text("no_price"@)) ==> expiry_read(field(json, key)) == Some(
            OnRuleExpiry::NoPrice,
        ),
        !member(json, key, Json::Text("fallback"@)) && !member(
            json,
            key,
            Json::Text("no_price"@),
        ) ==> expiry_read(field(json, key)) is None,
{
    reveal_strlit("fallback");
    reveal_strlit("no_price");
    assert("fallback"@[0] == 'f' && "no_price"@[0] == 'n');
    field_is_the_member(json, key);
    if let Some(Json::Text(s)) = field(json, key) {
        assert(member(json, key, Json::Text(s)));
    }
}

/// A rule is read field by field, each from its own key.
pub proof fn rule_is_read_field_by_field(json: Json, rule: ModelPricingRuleFileView)
    ensures
        rule_read(json) == Ok::<_, ()>(rule) <==> {
            &&& json is Object
            &&& cost_read(field(json, "cost"@)) == Ok::<_, ()>(rule.cost)
            &&& tariffs_read(field(json, "tariffs"@)) == Ok::<_, ()>(rule.tariffs)
            &&& schedules_read(field(json, "schedule"@)) == Ok::<_, ()>(rule.schedule)
            &&& tiers_read(field(json, "context_tiers"@)) == Ok::<_, ()>(rule.context_tiers)
            &&& says_text(json, "default_tariff"@, rule.default_tariff)
            &&& says_text(json, "effective_from"@, rule.effective_from)
            &&& says_text(json, "effective_until"@, rule.effective_until)
            &&& expiry_read(field(json, "on_rule_expiry"@)) == rule.on_rule_expiry
        },
        extension_read(json) == Ok::<_, ()>(rule) <==> {
            &&& rule.cost is None
            &&& tariffs_read(field(json, "tariffs"@)) == Ok::<_, ()>(rule.tariffs)
            &&& schedules_read(field(json, "schedule"@)) == Ok::<_, ()>(rule.schedule)
            &&& tiers_read(field(json, "context_tiers"@)) == Ok::<_, ()>(rule.context_tiers)
            &&& says_text(json, "default_tariff"@, rule.default_tariff)
            &&& says_text(json, "effective_from"@, rule.effective_from)
            &&& says_text(json, "effective_until"@, rule.effective_until)
            &&& expiry_read(field(json, "on_rule_expiry"@)) == rule.on_rule_expiry
        },
{
    lemma_numbers_and_texts(json, "default_tariff"@);
    lemma_numbers_and_texts(json, "effective_from"@);
    lemma_numbers_and_texts(json, "effective_until"@);
}

} // verus!
