//! TOML texts as plain values.
//!
//! `toml` parses a text and holds the value. What a value holds is a [`Toml`]
//! tree, and everything that is read from it is stated over that tree.

use crate::model;
use vstd::prelude::*;

verus! {

/// What a TOML value is, as far as it is read. The entries of a table have
/// different keys.
pub enum Toml {
    Text(Seq<char>),
    Boolean(bool),
    Table(Seq<(Seq<char>, Toml)>),
    Other,
}

/// `toml::Value`, whose contents are a [`Toml`] tree.
#[verifier::external_type_specification]
#[verifier::external_body]
pub struct ExTomlPlainValue(toml::Value);

/// What a `toml::Value` holds.
pub uninterp spec fn toml_tree_of(value: toml::Value) -> Toml;

/// What `toml` makes of a text, where it is TOML.
pub uninterp spec fn toml_value_parsed(text: Seq<char>) -> Option<Toml>;

/// The value under a key of a table.
pub open spec fn toml_field_of(toml: Toml, key: Seq<char>) -> Option<Toml> {
    match toml {
        Toml::Table(entries) => model::get(entries, key),
        _ => None,
    }
}

/// `toml::Value::from_str`: the value that a text is, or nothing where it is no
/// TOML. What it holds depends on the text alone.
#[verifier::external_body]
pub(crate) fn parse_toml(text: &str) -> (r: Option<toml::Value>)
    ensures
        toml_value_parsed(text@) == match r {
            Some(value) => Some(toml_tree_of(value)),
            None => None,
        },
{
    text.parse::<toml::Value>().ok()
}

/// `toml::Value::get` with a text: the value under that key of a table, and
/// nothing for any other value.
#[verifier::external_body]
pub(crate) fn toml_field<'a>(value: &'a toml::Value, key: &str) -> (r: Option<&'a toml::Value>)
    ensures
        match r {
            Some(v) => toml_field_of(toml_tree_of(*value), key@) == Some(toml_tree_of(*v)),
            None => toml_field_of(toml_tree_of(*value), key@) is None,
        },
{
    value.get(key)
}

/// `toml::Value::as_table`, of which the number of entries is taken; nothing for
/// any other value.
#[verifier::external_body]
pub(crate) fn toml_entry_count(value: &toml::Value) -> (r: Option<usize>)
    ensures
        match r {
            Some(n) => toml_tree_of(*value) is Table && toml_tree_of(*value)->Table_0.len() == n,
            None => !(toml_tree_of(*value) is Table),
        },
{
    value.as_table().map(|table| table.len())
}

/// `toml::Value::as_bool`: the truth value, and nothing for any other value.
#[verifier::external_body]
pub(crate) fn toml_bool(value: &toml::Value) -> (r: Option<bool>)
    ensures
        match r {
            Some(b) => toml_tree_of(*value) == Toml::Boolean(b),
            None => !(toml_tree_of(*value) is Boolean),
        },
{
    value.as_bool()
}

/// `toml::Value::as_str`: the text of a string, and nothing for any other value.
#[verifier::external_body]
pub(crate) fn toml_text<'a>(value: &'a toml::Value) -> (r: Option<&'a str>)
    ensures
        match r {
            Some(s) => toml_tree_of(*value) == Toml::Text(s@),
            None => !(toml_tree_of(*value) is Text),
        },
{
    value.as_str()
}

/// A field of a table is the first entry of its name; anything else than a table
/// has none.
pub proof fn field_is_the_first_of_its_name(toml: Toml, key: Seq<char>, i: int)
    ensures
        toml is Table && 0 <= i < toml->Table_0.len() && toml->Table_0[i].0 == key && (forall|
            k: int,
        |
            0 <= k < i ==> (#[trigger] toml->Table_0[k]).0 != key) ==> toml_field_of(toml, key)
            == Some(toml->Table_0[i].1),
        toml is Table && (forall|k: int|
            0 <= k < toml->Table_0.len() ==> (#[trigger] toml->Table_0[k]).0 != key)
            ==> toml_field_of(toml, key) is None,
        !(toml is Table) ==> toml_field_of(toml, key) is None,
{
    if toml is Table {
        model::lemma_index_from(toml->Table_0, key, 0);
    }
}

} // verus!
