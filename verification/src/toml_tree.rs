//! TOML documents that keep their comments.
//!
//! `toml_edit` parses a text, holds the document and writes it out. What a
//! document holds is a tree of tables, keys and values, each with the white
//! space and the comments around it, and everything that is done to a document
//! is stated over that tree and over the white space and the comments behind the
//! last entry. The tree leaves out how a table came to be written where it stands: its place among the headers, whether it has one, and the
//! white space inside the braces of an empty inline one.

use vstd::prelude::*;

verus! {

/// The white space and the comments before and after something, where they are
/// set.
pub struct TomlDecor {
    pub prefix: Option<Seq<char>>,
    pub suffix: Option<Seq<char>>,
}

/// A key with what is written around it.
pub struct TomlKey {
    pub name: Seq<char>,
    pub decor: TomlDecor,
}

/// What a value holds: the entries of an inline table, and the text of any
/// other value.
pub enum TomlContent {
    Text(Seq<char>),
    Inline(Seq<TomlEntry>),
}

/// A value, and what is written around it.
pub struct TomlValue {
    pub content: TomlContent,
    pub decor: TomlDecor,
}

/// What stands under a key.
pub enum TomlItem {
    Nothing,
    Value(TomlValue),
    Table(TomlTable),
    Tables(Seq<TomlTable>),
}

/// A table: its entries in order, each key once, and what is written around its
/// header.
pub struct TomlTable {
    pub decor: TomlDecor,
    pub entries: Seq<TomlEntry>,
}

pub struct TomlEntry {
    pub key: TomlKey,
    pub item: TomlItem,
}

/// A document: its root, and the white space and the comments behind its last
/// entry. A file of comments alone is nothing but those.
pub struct TomlDocument {
    pub root: TomlTable,
    pub trailing: Seq<char>,
}

/// Whether a text ends with what stood behind the last entry of a document,
/// which is written without its carriage returns.
pub open spec fn ends_with(text: Seq<char>, trailing: Seq<char>) -> bool {
    trailing.filter(|c: char| c != '\r').is_suffix_of(text)
}

impl TomlDecor {
    /// Nothing is set.
    pub open spec fn unset() -> TomlDecor {
        TomlDecor { prefix: None, suffix: None }
    }
}

impl TomlValue {
    /// The table that a value is, where it is an inline one.
    pub open spec fn table(self) -> Option<TomlTable> {
        match self.content {
            TomlContent::Inline(entries) => Some(TomlTable { decor: self.decor, entries }),
            TomlContent::Text(_) => None,
        }
    }

    /// A table as an inline one.
    pub open spec fn inline(table: TomlTable) -> TomlValue {
        TomlValue { content: TomlContent::Inline(table.entries), decor: table.decor }
    }
}

impl TomlItem {
    /// The table that an item is, with a header or inline.
    pub open spec fn table(self) -> Option<TomlTable> {
        match self {
            TomlItem::Table(table) => Some(table),
            TomlItem::Value(value) => value.table(),
            _ => None,
        }
    }

    /// The item with another table in the place of its own.
    pub open spec fn with_table(self, table: TomlTable) -> TomlItem {
        match self {
            TomlItem::Value(_) => TomlItem::Value(TomlValue::inline(table)),
            _ => TomlItem::Table(table),
        }
    }
}

/// The index of the first entry from `from` on with the key.
pub open spec fn entry_from(entries: Seq<TomlEntry>, name: Seq<char>, from: int) -> Option<int>
    decreases entries.len() - from,
{
    if from < 0 || from >= entries.len() {
        None
    } else if entries[from].key.name == name {
        Some(from)
    } else {
        entry_from(entries, name, from + 1)
    }
}

impl TomlTable {
    /// The entry with a key.
    pub open spec fn entry_at(self, name: Seq<char>) -> Option<TomlEntry> {
        match entry_from(self.entries, name, 0) {
            Some(i) => Some(self.entries[i]),
            None => None,
        }
    }

    /// What stands under a key, where something does.
    pub open spec fn item_at(self, name: Seq<char>) -> Option<TomlItem> {
        match entry_from(self.entries, name, 0) {
            Some(i) => if self.entries[i].item is Nothing {
                None
            } else {
                Some(self.entries[i].item)
            },
            None => None,
        }
    }

    /// The table with another item under a key that it has.
    pub open spec fn with_item(self, name: Seq<char>, item: TomlItem) -> TomlTable {
        match entry_from(self.entries, name, 0) {
            Some(i) => TomlTable {
                entries: self.entries.update(i, TomlEntry { key: self.entries[i].key, item }),
                ..self
            },
            None => self,
        }
    }

    /// The table with an entry: in the place of one with its key, else at the
    /// end.
    pub open spec fn with_entry(self, entry: TomlEntry) -> TomlTable {
        TomlTable {
            entries: match entry_from(self.entries, entry.key.name, 0) {
                Some(i) => self.entries.update(i, entry),
                None => self.entries.push(entry),
            },
            ..self
        }
    }

    /// The table without a key.
    pub open spec fn without(self, name: Seq<char>) -> TomlTable {
        match entry_from(self.entries, name, 0) {
            Some(i) => TomlTable { entries: self.entries.remove(i), ..self },
            None => self,
        }
    }

    /// No key occurs twice.
    pub open spec fn distinct(self) -> bool {
        forall|i: int, j: int|
            0 <= i < j < self.entries.len() ==> (#[trigger] self.entries[i]).key.name != (
            #[trigger] self.entries[j]).key.name
    }

    /// The entries under which something stands.
    pub open spec fn present(self) -> Seq<TomlEntry> {
        self.entries.filter(|e: TomlEntry| !(e.item is Nothing))
    }
}

/// An entry with nothing written around its key and its value, where it has one.
pub open spec fn tidied(entry: TomlEntry) -> TomlEntry {
    match entry.item {
        TomlItem::Value(value) => TomlEntry {
            key: TomlKey { name: entry.key.name, decor: TomlDecor::unset() },
            item: TomlItem::Value(TomlValue { decor: TomlDecor::unset(), ..value }),
        },
        _ => entry,
    }
}

/// An inline table as one with a header.
pub open spec fn with_header(table: TomlTable) -> TomlTable {
    TomlTable {
        decor: TomlDecor::unset(),
        entries: table.entries.map_values(|entry: TomlEntry| tidied(entry)),
    }
}

/// No key occurs twice among some entries, nor in the tables below them.
pub open spec fn keys_once(entries: Seq<TomlEntry>) -> bool
    decreases entries,
{
    &&& forall|i: int, j: int|
        0 <= i < j < entries.len() ==> (#[trigger] entries[i]).key.name != (
        #[trigger] entries[j]).key.name
    &&& forall|i: int| 0 <= i < entries.len() ==> keys_once_in((#[trigger] entries[i]).item)
}

/// No key occurs twice in the table that an item is, nor in those below it.
pub open spec fn keys_once_in(item: TomlItem) -> bool
    decreases item,
{
    match item {
        TomlItem::Table(table) => keys_once(table.entries),
        TomlItem::Value(value) => match value.content {
            TomlContent::Inline(entries) => keys_once(entries),
            TomlContent::Text(_) => true,
        },
        _ => true,
    }
}

/// `toml_edit::Document`.
#[verifier::external_type_specification]
#[verifier::external_body]
pub struct ExDocument(toml_edit::Document);

/// `toml_edit::Table`.
#[verifier::external_type_specification]
#[verifier::external_body]
pub struct ExTable(toml_edit::Table);

/// `toml_edit::Item`.
#[verifier::external_type_specification]
#[verifier::external_body]
pub struct ExItem(toml_edit::Item);

/// `toml_edit::Value`.
#[verifier::external_type_specification]
#[verifier::external_body]
pub struct ExTomlValue(toml_edit::Value);

/// `toml_edit::InlineTable`.
#[verifier::external_type_specification]
#[verifier::external_body]
pub struct ExInlineTable(toml_edit::InlineTable);

/// `toml_edit::Key`.
#[verifier::external_type_specification]
#[verifier::external_body]
pub struct ExKey(toml_edit::Key);

/// `toml_edit::Decor`.
#[verifier::external_type_specification]
#[verifier::external_body]
pub struct ExDecor(toml_edit::Decor);

/// The table that is the root of a document, where it is one.
pub uninterp spec fn document_root(document: toml_edit::Document) -> Option<TomlTable>;

/// The white space and the comments behind the last entry of a document.
pub uninterp spec fn document_trailing(document: toml_edit::Document) -> Seq<char>;

/// What a `toml_edit::Table` holds.
pub uninterp spec fn table_tree(table: toml_edit::Table) -> TomlTable;

/// What a `toml_edit::Item` holds.
pub uninterp spec fn item_tree(item: toml_edit::Item) -> TomlItem;

/// What a `toml_edit::Value` holds.
pub uninterp spec fn value_tree(value: toml_edit::Value) -> TomlValue;

/// The entries of an inline table, and what is written around it.
pub uninterp spec fn inline_tree(table: toml_edit::InlineTable) -> TomlTable;

/// What a `toml_edit::Key` holds.
pub uninterp spec fn key_tree(key: toml_edit::Key) -> TomlKey;

/// What a `toml_edit::Decor` holds.
pub uninterp spec fn decor_tree(decor: toml_edit::Decor) -> TomlDecor;

/// What `toml_edit` makes of a text: a document, where it is one.
pub uninterp spec fn toml_parsed(text: Seq<char>) -> Option<TomlDocument>;

/// What `toml_edit` writes of a document.
pub uninterp spec fn document_written(document: toml_edit::Document) -> Seq<char>;

/// `toml_edit::Document::from_str`: the document that a text is, whose root is a
/// table, or nothing where the text is no TOML. What the document holds depends
/// on the text alone, and no table in it has a key twice.
#[verifier::external_body]
pub(crate) fn parse_document(text: &str) -> (r: Option<toml_edit::Document>)
    ensures
        match r {
            Some(document) => {
                &&& document_root(document) is Some
                &&& toml_parsed(text@) == Some(
                    (TomlDocument {
                        root: document_root(document)->Some_0,
                        trailing: document_trailing(document),
                    }),
                )
                &&& keys_once(document_root(document)->Some_0.entries)
            },
            None => toml_parsed(text@) is None,
        },
{
    text.parse::<toml_edit::Document>().ok()
}

/// `toml_edit::Document::to_string`: the document written out. The text depends
/// on the document alone, and on more of it than its tree; that reading the text
/// gives the tree back is not claimed. It ends with what stands behind the last
/// entry, without carriage returns.
#[verifier::external_body]
pub(crate) fn write_document(document: &toml_edit::Document) -> (r: String)
    ensures
        r@ == document_written(*document),
        ends_with(r@, document_trailing(*document)),
{
    document.to_string()
}

/// `toml_edit::Document::as_table`: the root of a document. It panics where the
/// root is no table, which no parsed document's is.
#[verifier::external_body]
pub(crate) fn root(document: &toml_edit::Document) -> (r: &toml_edit::Table)
    requires
        document_root(*document) is Some,
    ensures
        document_root(*document) == Some(table_tree(*r)),
{
    document.as_table()
}

/// `toml_edit::Document::as_table_mut`: the root of a document, to be changed.
/// What stands behind the last entry is no part of the root and stays.
#[verifier::external_body]
pub(crate) fn root_mut(document: &mut toml_edit::Document) -> (r: &mut toml_edit::Table)
    requires
        document_root(*old(document)) is Some,
    ensures
        document_root(*old(document)) == Some(table_tree(*r)),
        document_root(*final(document)) == Some(table_tree(*final(r))),
        document_trailing(*final(document)) == document_trailing(*old(document)),
{
    document.as_table_mut()
}

/// `toml_edit::Table::iter`, of which the keys are taken: those of the entries
/// that hold something, in order. A key occurs once, so that what stands under
/// it is its own entry's item.
#[verifier::external_body]
pub(crate) fn table_keys(table: &toml_edit::Table) -> (r: Vec<String>)
    ensures
        r@.len() == table_tree(*table).present().len(),
        forall|i: int|
            0 <= i < r@.len() ==> (#[trigger] r@[i])@ == table_tree(*table).present()[i].key.name,
        forall|i: int|
            0 <= i < r@.len() ==> table_tree(*table).item_at((#[trigger] r@[i])@) == Some(
                table_tree(*table).present()[i].item,
            ),
{
    table.iter().map(|entry| entry.0.to_string()).collect()
}

/// `toml_edit::Table::get`: what stands under a key, where something does.
#[verifier::external_body]
pub(crate) fn table_get<'a>(table: &'a toml_edit::Table, name: &str) -> (r: Option<
    &'a toml_edit::Item,
>)
    ensures
        match r {
            Some(item) => table_tree(*table).item_at(name@) == Some(item_tree(*item)),
            None => table_tree(*table).item_at(name@) is None,
        },
{
    table.get(name)
}

/// `toml_edit::Table::get_mut`: what stands under a key, where something does,
/// to be changed in its place.
#[verifier::external_body]
pub(crate) fn table_get_mut<'a>(table: &'a mut toml_edit::Table, name: &str) -> (r: Option<
    &'a mut toml_edit::Item,
>)
    ensures
        match r {
            Some(item) => {
                &&& table_tree(*old(table)).item_at(name@) == Some(item_tree(*item))
                &&& table_tree(*final(table)) == table_tree(*old(table)).with_item(
                    name@,
                    item_tree(*final(item)),
                )
            },
            None => {
                &&& table_tree(*old(table)).item_at(name@) is None
                &&& table_tree(*final(table)) == table_tree(*old(table))
            },
        },
{
    table.get_mut(name)
}

/// `toml_edit::Table::remove`: the entry with a key goes, and the others keep
/// their order.
#[verifier::external_body]
pub(crate) fn table_remove(table: &mut toml_edit::Table, name: &str)
    ensures
        table_tree(*final(table)) == table_tree(*old(table)).without(name@),
{
    table.remove(name);
}

/// `toml_edit::Table::remove_entry`: the entry with a key goes, and its key is
/// handed out.
#[verifier::external_body]
pub(crate) fn table_remove_entry(table: &mut toml_edit::Table, name: &str) -> (r: Option<
    toml_edit::Key,
>)
    ensures
        table_tree(*final(table)) == table_tree(*old(table)).without(name@),
        match r {
            Some(key) => {
                let at = entry_from(table_tree(*old(table)).entries, name@, 0);
                &&& at is Some
                &&& table_tree(*old(table)).entries[at->Some_0].key == key_tree(key)
            },
            None => entry_from(table_tree(*old(table)).entries, name@, 0) is None,
        },
{
    table.remove_entry(name).map(|entry| entry.0)
}

/// `toml_edit::Table::insert`: an entry whose key has nothing written around it,
/// in the place of one with that key or at the end.
#[verifier::external_body]
pub(crate) fn table_insert(table: &mut toml_edit::Table, name: &str, item: toml_edit::Item)
    ensures
        table_tree(*final(table)) == table_tree(*old(table)).with_entry(
            TomlEntry {
                key: TomlKey { name: name@, decor: TomlDecor::unset() },
                item: item_tree(item),
            },
        ),
{
    table.insert(name, item);
}

/// `toml_edit::Table::insert_formatted`: an entry with its key as it is, in the
/// place of one with that key or at the end.
#[verifier::external_body]
pub(crate) fn table_insert_formatted(
    table: &mut toml_edit::Table,
    key: &toml_edit::Key,
    item: toml_edit::Item,
)
    ensures
        table_tree(*final(table)) == table_tree(*old(table)).with_entry(
            TomlEntry { key: key_tree(*key), item: item_tree(item) },
        ),
{
    table.insert_formatted(key, item);
}

/// `toml_edit::Table::decor_mut`, which is assigned to: what is written around
/// the table's header.
#[verifier::external_body]
pub(crate) fn set_table_decor(table: &mut toml_edit::Table, decor: toml_edit::Decor)
    ensures
        table_tree(*final(table)) == (TomlTable {
            decor: decor_tree(decor),
            ..table_tree(*old(table))
        }),
{
    *table.decor_mut() = decor;
}

/// `toml_edit::Key::new`: a key with nothing written around it.
#[verifier::external_body]
pub(crate) fn new_key(name: &str) -> (r: toml_edit::Key)
    ensures
        key_tree(r) == (TomlKey { name: name@, decor: TomlDecor::unset() }),
{
    toml_edit::Key::new(name)
}

/// `toml_edit::Key::decor`, copied: what is written around a key.
#[verifier::external_body]
pub(crate) fn key_decor(key: &toml_edit::Key) -> (r: toml_edit::Decor)
    ensures
        decor_tree(r) == key_tree(*key).decor,
{
    key.decor().clone()
}

/// `toml_edit::Key::decor_mut`, which is assigned to.
#[verifier::external_body]
pub(crate) fn set_key_decor(key: &mut toml_edit::Key, decor: toml_edit::Decor)
    ensures
        key_tree(*final(key)) == (TomlKey { decor: decor_tree(decor), ..key_tree(*old(key)) }),
{
    *key.decor_mut() = decor;
}

/// `toml_edit::Item::clone`.
#[verifier::external_body]
pub(crate) fn copy_item(item: &toml_edit::Item) -> (r: toml_edit::Item)
    ensures
        item_tree(r) == item_tree(*item),
{
    item.clone()
}

/// `toml_edit::Item::as_table`: the table that an item is, where it is one. An
/// inline table is a value.
#[verifier::external_body]
pub(crate) fn item_table<'a>(item: &'a toml_edit::Item) -> (r: Option<&'a toml_edit::Table>)
    ensures
        match r {
            Some(table) => item_tree(*item) == TomlItem::Table(table_tree(*table)),
            None => !(item_tree(*item) is Table),
        },
{
    item.as_table()
}

/// `toml_edit::Item::as_table_mut`: the table that an item is, where it is one,
/// to be changed in its place.
#[verifier::external_body]
pub(crate) fn item_table_mut<'a>(item: &'a mut toml_edit::Item) -> (r: Option<
    &'a mut toml_edit::Table,
>)
    ensures
        match r {
            Some(table) => {
                &&& item_tree(*old(item)) == TomlItem::Table(table_tree(*table))
                &&& item_tree(*final(item)) == TomlItem::Table(table_tree(*final(table)))
            },
            None => {
                &&& !(item_tree(*old(item)) is Table)
                &&& item_tree(*final(item)) == item_tree(*old(item))
            },
        },
{
    item.as_table_mut()
}

/// `toml_edit::Item::as_value`: the value that an item is, where it is one.
#[verifier::external_body]
pub(crate) fn item_value<'a>(item: &'a toml_edit::Item) -> (r: Option<&'a toml_edit::Value>)
    ensures
        match r {
            Some(value) => item_tree(*item) == TomlItem::Value(value_tree(*value)),
            None => !(item_tree(*item) is Value),
        },
{
    item.as_value()
}

/// `toml_edit::Item::as_value_mut`: the value that an item is, where it is one,
/// to be changed in its place.
#[verifier::external_body]
pub(crate) fn item_value_mut<'a>(item: &'a mut toml_edit::Item) -> (r: Option<
    &'a mut toml_edit::Value,
>)
    ensures
        match r {
            Some(value) => {
                &&& item_tree(*old(item)) == TomlItem::Value(value_tree(*value))
                &&& item_tree(*final(item)) == TomlItem::Value(value_tree(*final(value)))
            },
            None => {
                &&& !(item_tree(*old(item)) is Value)
                &&& item_tree(*final(item)) == item_tree(*old(item))
            },
        },
{
    item.as_value_mut()
}

/// `toml_edit::Value::clone`.
#[verifier::external_body]
pub(crate) fn copy_value(value: &toml_edit::Value) -> (r: toml_edit::Value)
    ensures
        value_tree(r) == value_tree(*value),
{
    value.clone()
}

/// `toml_edit::Value::decor`, copied: what is written around a value.
#[verifier::external_body]
pub(crate) fn value_decor(value: &toml_edit::Value) -> (r: toml_edit::Decor)
    ensures
        decor_tree(r) == value_tree(*value).decor,
{
    value.decor().clone()
}

/// `toml_edit::Value::decor_mut`, which is assigned to.
#[verifier::external_body]
pub(crate) fn set_value_decor(value: &mut toml_edit::Value, decor: toml_edit::Decor)
    ensures
        value_tree(*final(value)) == (TomlValue {
            decor: decor_tree(decor),
            ..value_tree(*old(value))
        }),
{
    *value.decor_mut() = decor;
}

/// `toml_edit::Value::as_inline_table_mut`: the inline table that a value is,
/// where it is one, to be changed in its place.
#[verifier::external_body]
pub(crate) fn value_inline_mut<'a>(value: &'a mut toml_edit::Value) -> (r: Option<
    &'a mut toml_edit::InlineTable,
>)
    ensures
        match r {
            Some(table) => {
                &&& value_tree(*old(value)).table() == Some(inline_tree(*table))
                &&& value_tree(*final(value)) == TomlValue::inline(inline_tree(*final(table)))
            },
            None => {
                &&& value_tree(*old(value)).table() is None
                &&& value_tree(*final(value)) == value_tree(*old(value))
            },
        },
{
    value.as_inline_table_mut()
}

/// `toml_edit::InlineTable::get_key_value_mut`, of which the item is taken: what
/// stands under a key, where something does, to be changed in its place.
#[verifier::external_body]
pub(crate) fn inline_get_mut<'a>(table: &'a mut toml_edit::InlineTable, name: &str) -> (r: Option<
    &'a mut toml_edit::Item,
>)
    ensures
        match r {
            Some(item) => {
                &&& inline_tree(*old(table)).item_at(name@) == Some(item_tree(*item))
                &&& inline_tree(*final(table)) == inline_tree(*old(table)).with_item(
                    name@,
                    item_tree(*final(item)),
                )
            },
            None => {
                &&& inline_tree(*old(table)).item_at(name@) is None
                &&& inline_tree(*final(table)) == inline_tree(*old(table))
            },
        },
{
    table.get_key_value_mut(name).map(|entry| entry.1)
}

/// `toml_edit::InlineTable::remove`: the entry with a key goes, and the others
/// keep their order.
#[verifier::external_body]
pub(crate) fn inline_remove(table: &mut toml_edit::InlineTable, name: &str)
    ensures
        inline_tree(*final(table)) == inline_tree(*old(table)).without(name@),
{
    table.remove(name);
}

/// `toml_edit::Item::into_table`: the table that an item is, where it is one. An
/// inline one gets a header, which keeps its entries and drops what is written
/// around its keys and values.
#[verifier::external_body]
pub(crate) fn item_into_table(item: toml_edit::Item) -> (r: Option<toml_edit::Table>)
    ensures
        match r {
            Some(table) => match item_tree(item) {
                TomlItem::Table(tree) => table_tree(table) == tree,
                TomlItem::Value(value) => {
                    &&& value.table() is Some
                    &&& table_tree(table) == with_header(value.table()->Some_0)
                },
                _ => false,
            },
            None => item_tree(item).table() is None,
        },
{
    item.into_table().ok()
}

/// `toml_edit::Decor::set_suffix`, with the suffix of another decor, or an empty
/// one where that has none.
#[verifier::external_body]
pub(crate) fn set_decor_suffix(decor: &mut toml_edit::Decor, from: &toml_edit::Decor)
    ensures
        decor_tree(*final(decor)) == (TomlDecor {
            suffix: Some(
                match decor_tree(*from).suffix {
                    Some(suffix) => suffix,
                    None => Seq::empty(),
                },
            ),
            ..decor_tree(*old(decor))
        }),
{
    decor.set_suffix(from.suffix().cloned().unwrap_or_default());
}

} // verus!
