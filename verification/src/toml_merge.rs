//! Saving a config into the file that is already there.
//!
//! A whole-file rewrite would drop the user's comments and every section that a
//! newer build wrote. Instead the serialized config is laid over the parsed
//! file: what the config states is overwritten, everything else stays, and
//! nothing goes away but the paths that were declared.

use crate::model;
use crate::text;
use crate::toml_tree;
use crate::toml_tree::{TomlDecor, TomlDocument, TomlEntry, TomlItem, TomlKey, TomlTable, TomlValue};
use vstd::prelude::*;

verus! {

/// The other spellings of a key.
pub open spec fn spellings(aliases: Seq<(Seq<char>, Seq<Seq<char>>)>, name: Seq<char>) -> Seq<
    Seq<char>,
> {
    match model::get(aliases, name) {
        Some(list) => list,
        None => Seq::empty(),
    }
}

/// Canonical keys with their other spellings.
pub open spec fn alias_view(aliases: Seq<(String, Vec<String>)>) -> Seq<
    (Seq<char>, Seq<Seq<char>>),
> {
    aliases.map_values(|e: (String, Vec<String>)| (e.0@, model::seq_view(e.1@)))
}

/// A key with nothing written around it.
pub open spec fn plain_key(name: Seq<char>) -> TomlKey {
    TomlKey { name, decor: TomlDecor::unset() }
}

/// The entry that takes the place of one under another spelling: the serialized
/// item, with the comment of the old key on the table's header where it is a
/// table, and on the key where it is not.
pub open spec fn renamed(name: Seq<char>, item: TomlItem, comment: TomlDecor) -> TomlEntry {
    match item {
        TomlItem::Table(table) => TomlEntry {
            key: plain_key(name),
            item: TomlItem::Table(TomlTable { decor: comment, ..table }),
        },
        _ => TomlEntry { key: TomlKey { name, decor: comment }, item },
    }
}

/// A table in which one other spelling of a key is reconciled: it goes where the
/// key is there, and takes the key's name where it is not.
pub open spec fn reconciled_once(
    target: TomlTable,
    name: Seq<char>,
    item: TomlItem,
    spelling: Seq<char>,
) -> TomlTable {
    if target.item_at(name) is Some {
        target.without(spelling)
    } else {
        match toml_tree::entry_from(target.entries, spelling, 0) {
            Some(i) => target.without(spelling).with_entry(
                renamed(name, item, target.entries[i].key.decor),
            ),
            None => target,
        }
    }
}

/// A table in which the first `n` other spellings of a key are reconciled.
pub open spec fn reconciled(
    target: TomlTable,
    name: Seq<char>,
    item: TomlItem,
    list: Seq<Seq<char>>,
    n: int,
) -> TomlTable
    decreases n,
{
    if n <= 0 {
        target
    } else {
        reconciled_once(reconciled(target, name, item, list, n - 1), name, item, list[n - 1])
    }
}

/// What is written around the header of a table that was inline: before it what
/// was before its key, and behind it what was behind the table.
pub open spec fn heading(key: TomlDecor, value: TomlDecor) -> TomlDecor {
    TomlDecor {
        prefix: key.prefix,
        suffix: Some(
            match value.suffix {
                Some(suffix) => suffix,
                None => Seq::empty(),
            },
        ),
    }
}

/// An entry whose table has a header: an inline one gets it, with its comments.
pub open spec fn opened(entry: TomlEntry) -> TomlEntry {
    match entry.item {
        TomlItem::Value(value) => match value.table() {
            Some(child) => TomlEntry {
                key: plain_key(entry.key.name),
                item: TomlItem::Table(
                    TomlTable {
                        decor: heading(entry.key.decor, value.decor),
                        ..toml_tree::with_header(child)
                    },
                ),
            },
            None => entry,
        },
        _ => entry,
    }
}

/// A table made ready for an item under a key: where that is a table with a
/// header, an inline table under the key gets one too, so that the two can be
/// laid over each other and no entry of it is lost.
pub open spec fn readied(target: TomlTable, name: Seq<char>, item: TomlItem) -> TomlTable {
    match target.item_at(name) {
        Some(TomlItem::Value(value)) => if item is Table && value.table() is Some {
            target.without(name).with_entry(opened(target.entry_at(name)->Some_0))
        } else {
            target
        },
        _ => target,
    }
}

/// An item with another laid over it: tables entry by entry, and a value with
/// what was written around the old one.
pub open spec fn merged_item(
    target: TomlItem,
    source: TomlItem,
    aliases: Seq<(Seq<char>, Seq<Seq<char>>)>,
) -> TomlItem
    decreases source, 0int,
{
    match source {
        TomlItem::Table(s) => match target {
            TomlItem::Table(t) => TomlItem::Table(
                merged_entries(t, s.entries, s.entries.len() as int, aliases),
            ),
            _ => source,
        },
        TomlItem::Value(s) => match target {
            TomlItem::Value(t) => TomlItem::Value(
                TomlValue { content: s.content, decor: t.decor },
            ),
            _ => source,
        },
        _ => source,
    }
}

/// A table with the first `n` of some entries laid over it.
pub open spec fn merged_entries(
    target: TomlTable,
    entries: Seq<TomlEntry>,
    n: int,
    aliases: Seq<(Seq<char>, Seq<Seq<char>>)>,
) -> TomlTable
    decreases entries, n,
{
    if n <= 0 || n > entries.len() {
        target
    } else {
        let before = merged_entries(target, entries, n - 1, aliases);
        let entry = entries[n - 1];
        if entry.item is Nothing {
            before
        } else {
            let name = entry.key.name;
            let list = spellings(aliases, name);
            let table = readied(
                reconciled(before, name, entry.item, list, list.len() as int),
                name,
                entry.item,
            );
            match table.item_at(name) {
                Some(item) => table.with_item(name, merged_item(item, entry.item, aliases)),
                None => table.with_entry(TomlEntry { key: plain_key(name), item: entry.item }),
            }
        }
    }
}

/// A table with another laid over it.
pub open spec fn merged_table(
    target: TomlTable,
    source: TomlTable,
    aliases: Seq<(Seq<char>, Seq<Seq<char>>)>,
) -> TomlTable {
    merged_entries(target, source.entries, source.entries.len() as int, aliases)
}

/// A table with one entry laid over it.
pub open spec fn with_merged(
    target: TomlTable,
    entry: TomlEntry,
    aliases: Seq<(Seq<char>, Seq<Seq<char>>)>,
) -> TomlTable {
    let name = entry.key.name;
    let list = spellings(aliases, name);
    let table = readied(
        reconciled(target, name, entry.item, list, list.len() as int),
        name,
        entry.item,
    );
    match table.item_at(name) {
        Some(item) => table.with_item(name, merged_item(item, entry.item, aliases)),
        None => table.with_entry(TomlEntry { key: plain_key(name), item: entry.item }),
    }
}

/// A table with the first `n` of some entries, which all hold something, laid
/// over it.
pub open spec fn folded(
    target: TomlTable,
    entries: Seq<TomlEntry>,
    n: int,
    aliases: Seq<(Seq<char>, Seq<Seq<char>>)>,
) -> TomlTable
    decreases n,
{
    if n <= 0 {
        target
    } else {
        with_merged(folded(target, entries, n - 1, aliases), entries[n - 1], aliases)
    }
}

proof fn lemma_folded_prefix(
    target: TomlTable,
    one: Seq<TomlEntry>,
    other: Seq<TomlEntry>,
    n: int,
    aliases: Seq<(Seq<char>, Seq<Seq<char>>)>,
)
    requires
        0 <= n <= one.len(),
        n <= other.len(),
        forall|i: int| 0 <= i < n ==> one[i] == other[i],
    ensures
        folded(target, one, n, aliases) == folded(target, other, n, aliases),
    decreases n,
{
    if n > 0 {
        lemma_folded_prefix(target, one, other, n - 1, aliases);
    }
}

/// Entries that hold nothing do not count.
proof fn lemma_merged_is_folded(
    target: TomlTable,
    entries: Seq<TomlEntry>,
    n: int,
    aliases: Seq<(Seq<char>, Seq<Seq<char>>)>,
)
    requires
        0 <= n <= entries.len(),
    ensures
        ({
            let present = entries.take(n).filter(|e: TomlEntry| !(e.item is Nothing));
            merged_entries(target, entries, n, aliases) == folded(
                target,
                present,
                present.len() as int,
                aliases,
            )
        }),
    decreases n,
{
    reveal(Seq::filter);
    let holds = |e: TomlEntry| !(e.item is Nothing);
    if n > 0 {
        lemma_merged_is_folded(target, entries, n - 1, aliases);
        assert(entries.take(n).drop_last() =~= entries.take(n - 1));
        assert(entries.take(n).last() == entries[n - 1]);
        let before = entries.take(n - 1).filter(holds);
        let after = entries.take(n).filter(holds);
        if holds(entries[n - 1]) {
            assert(after == before.push(entries[n - 1]));
            lemma_folded_prefix(target, after, before, before.len() as int, aliases);
        } else {
            assert(after == before);
        }
    } else {
        assert(entries.take(0) =~= Seq::empty());
    }
}

/// To put an item where it stands changes nothing.
proof fn lemma_same_item(table: TomlTable, name: Seq<char>)
    requires
        table.item_at(name) is Some,
    ensures
        table.with_item(name, table.item_at(name)->Some_0) == table,
{
    lemma_entry_from(table.entries, name, 0);
    let i = toml_tree::entry_from(table.entries, name, 0)->Some_0;
    assert(table.entries.update(
        i,
        TomlEntry { key: table.entries[i].key, item: table.entries[i].item },
    ) =~= table.entries);
}

/// What an index that is found says.
proof fn lemma_entry_from(entries: Seq<TomlEntry>, name: Seq<char>, from: int)
    requires
        0 <= from,
    ensures
        match toml_tree::entry_from(entries, name, from) {
            Some(i) => from <= i < entries.len() && entries[i].key.name == name && forall|k: int|
                from <= k < i ==> (#[trigger] entries[k]).key.name != name,
            None => forall|k: int|
                from <= k < entries.len() ==> (#[trigger] entries[k]).key.name != name,
        },
    decreases entries.len() - from,
{
    if from < entries.len() && entries[from].key.name != name {
        lemma_entry_from(entries, name, from + 1);
    }
}

fn find_spellings<'a>(aliases: &'a Vec<(String, Vec<String>)>, name: &str) -> (r: Option<
    &'a Vec<String>,
>)
    ensures
        match r {
            Some(list) => spellings(alias_view(aliases@), name@) == model::seq_view(list@),
            None => spellings(alias_view(aliases@), name@).len() == 0,
        },
{
    let ghost all = alias_view(aliases@);
    let mut i: usize = 0;
    while i < aliases.len()
        invariant
            i <= aliases@.len(),
            all == alias_view(aliases@),
            model::index_from(all, name@, 0) == model::index_from(all, name@, i as int),
        decreases aliases.len() - i,
    {
        assert(all[i as int] == (
            aliases@[i as int].0@,
            model::seq_view(aliases@[i as int].1@),
        ));
        if text::same(aliases[i].0.as_str(), name) {
            return Some(&aliases[i].1);
        }
        i += 1;
    }
    None
}

/// Reconcile one other spelling of a key.
fn reconcile(table: &mut toml_edit::Table, name: &str, item: &toml_edit::Item, spelling: &str)
    ensures
        toml_tree::table_tree(*final(table)) == reconciled_once(
            toml_tree::table_tree(*old(table)),
            name@,
            toml_tree::item_tree(*item),
            spelling@,
        ),
{
    if toml_tree::table_get(table, name).is_some() {
        toml_tree::table_remove(table, spelling);
        return;
    }
    if let Some(old_key) = toml_tree::table_remove_entry(table, spelling) {
        let comment = toml_tree::key_decor(&old_key);
        let mut key = toml_tree::new_key(name);
        let mut copy = toml_tree::copy_item(item);
        if toml_tree::item_table(&copy).is_some() {
            if let Some(inner) = toml_tree::item_table_mut(&mut copy) {
                toml_tree::set_table_decor(inner, comment);
            }
        } else {
            toml_tree::set_key_decor(&mut key, comment);
        }
        toml_tree::table_insert_formatted(table, &key, copy);
    }
}

/// Give an inline table under a key a header, where `item` is a table with one.
fn make_ready(table: &mut toml_edit::Table, name: &str, item: &toml_edit::Item)
    ensures
        toml_tree::table_tree(*final(table)) == readied(
            toml_tree::table_tree(*old(table)),
            name@,
            toml_tree::item_tree(*item),
        ),
{
    if toml_tree::item_table(item).is_none() {
        return;
    }
    proof {
        lemma_entry_from(toml_tree::table_tree(*table).entries, name@, 0);
    }
    let found = match toml_tree::table_get(table, name) {
        Some(found) => toml_tree::copy_item(found),
        None => {
            return;
        },
    };
    let behind = match toml_tree::item_value(&found) {
        Some(value) => toml_tree::value_decor(value),
        None => {
            return;
        },
    };
    let mut child = match toml_tree::item_into_table(found) {
        Some(child) => child,
        None => {
            return;
        },
    };
    if let Some(old_key) = toml_tree::table_remove_entry(table, name) {
        let mut comment = toml_tree::key_decor(&old_key);
        toml_tree::set_decor_suffix(&mut comment, &behind);
        toml_tree::set_table_decor(&mut child, comment);
        let key = toml_tree::new_key(name);
        let mut copy = toml_tree::copy_item(item);
        if let Some(inner) = toml_tree::item_table_mut(&mut copy) {
            *inner = child;
        }
        toml_tree::table_insert_formatted(table, &key, copy);
    }
}

/// Merge `source` into `target`, table by table.
///
/// Keys that only `target` has are kept: they anchor the user's comments, or a
/// newer build wrote them. Keys that `source` has are overwritten. Nothing is
/// deleted here.
fn merge_table(
    target: &mut toml_edit::Table,
    source: &toml_edit::Table,
    aliases: &Vec<(String, Vec<String>)>,
)
    ensures
        toml_tree::table_tree(*final(target)) == merged_table(
            toml_tree::table_tree(*old(target)),
            toml_tree::table_tree(*source),
            alias_view(aliases@),
        ),
    decreases toml_tree::table_tree(*source), 0int,
{
    let ghost start = toml_tree::table_tree(*target);
    let ghost tree = toml_tree::table_tree(*source);
    let ghost present = tree.present();
    let ghost names = alias_view(aliases@);
    let keys = toml_tree::table_keys(source);
    let mut i: usize = 0;
    while i < keys.len()
        invariant
            i <= keys@.len(),
            tree == toml_tree::table_tree(*source),
            present == tree.present(),
            names == alias_view(aliases@),
            keys@.len() == present.len(),
            forall|k: int| 0 <= k < keys@.len() ==> (#[trigger] keys@[k])@ == present[k].key.name,
            forall|k: int|
                0 <= k < keys@.len() ==> tree.item_at((#[trigger] keys@[k])@) == Some(
                    present[k].item,
                ),
            toml_tree::table_tree(*target) == folded(start, present, i as int, names),
        decreases keys.len() - i,
    {
        let key = keys[i].as_str();
        if let Some(item) = toml_tree::table_get(source, key) {
            if let Some(list) = find_spellings(aliases, key) {
                let ghost before = toml_tree::table_tree(*target);
                let ghost all = model::seq_view(list@);
                let mut k: usize = 0;
                while k < list.len()
                    invariant
                        k <= list@.len(),
                        all == model::seq_view(list@),
                        toml_tree::table_tree(*target) == reconciled(
                            before,
                            key@,
                            toml_tree::item_tree(*item),
                            all,
                            k as int,
                        ),
                    decreases list.len() - k,
                {
                    reconcile(target, key, item, list[k].as_str());
                    k += 1;
                }
            }
            make_ready(target, key, item);
            proof {
                lemma_entry_from(tree.entries, key@, 0);
                let at = toml_tree::entry_from(tree.entries, key@, 0)->Some_0;
                assert(toml_tree::item_tree(*item) == tree.entries[at].item);
                assert(decreases_to!(tree => tree.entries));
                assert(decreases_to!(tree.entries => tree.entries[at]));
                assert(decreases_to!(tree.entries[at] => tree.entries[at].item));
            }
            match toml_tree::table_get_mut(target, key) {
                Some(slot) => {
                    merge_item(slot, item, aliases);
                },
                None => {
                    toml_tree::table_insert(target, key, toml_tree::copy_item(item));
                },
            }
        }
        i += 1;
    }
    proof {
        lemma_merged_is_folded(start, tree.entries, tree.entries.len() as int, names);
        assert(tree.entries.take(tree.entries.len() as int) =~= tree.entries);
    }
}

/// Lay `source` over `target`. An array of tables is a value here: it is
/// replaced as a whole.
fn merge_item(
    target: &mut toml_edit::Item,
    source: &toml_edit::Item,
    aliases: &Vec<(String, Vec<String>)>,
)
    ensures
        toml_tree::item_tree(*final(target)) == merged_item(
            toml_tree::item_tree(*old(target)),
            toml_tree::item_tree(*source),
            alias_view(aliases@),
        ),
    decreases toml_tree::item_tree(*source), 1int,
{
    if let Some(source_table) = toml_tree::item_table(source) {
        if toml_tree::item_table(target).is_some() {
            if let Some(target_table) = toml_tree::item_table_mut(target) {
                merge_table(target_table, source_table, aliases);
            }
            return;
        }
    }
    replace_item_preserving_decor(target, source);
}

/// Replace `target`'s value by `source`'s and keep what is written around it. A
/// comment behind a value lives there, so that a plain assignment would erase it
/// on every change.
fn replace_item_preserving_decor(target: &mut toml_edit::Item, source: &toml_edit::Item)
    ensures
        toml_tree::item_tree(*final(target)) == match (
            toml_tree::item_tree(*old(target)),
            toml_tree::item_tree(*source),
        ) {
            (TomlItem::Value(t), TomlItem::Value(s)) => TomlItem::Value(
                TomlValue { content: s.content, decor: t.decor },
            ),
            _ => toml_tree::item_tree(*source),
        },
{
    if let Some(source_value) = toml_tree::item_value(source) {
        if toml_tree::item_value(target).is_some() {
            if let Some(target_value) = toml_tree::item_value_mut(target) {
                let decor = toml_tree::value_decor(target_value);
                *target_value = toml_tree::copy_value(source_value);
                toml_tree::set_value_decor(target_value, decor);
            }
            return;
        }
    }
    *target = toml_tree::copy_item(source);
}

/// A table without what a dotted path names. The tables along the path can have
/// headers or be inline.
pub open spec fn removed(table: TomlTable, dotted: Seq<char>) -> TomlTable
    decreases dotted.len(),
{
    let dot = text::first_index(dotted, '.');
    if dot < 0 || dot >= dotted.len() {
        table.without(dotted)
    } else {
        let head = dotted.take(dot);
        match table.item_at(head) {
            Some(item) => match item.table() {
                Some(child) => table.with_item(
                    head,
                    item.with_table(removed(child, dotted.skip(dot + 1))),
                ),
                None => table,
            },
            None => table,
        }
    }
}

/// An item without what a dotted path names in the table that it is.
pub open spec fn removed_below(item: TomlItem, dotted: Seq<char>) -> TomlItem {
    match item.table() {
        Some(child) => item.with_table(removed(child, dotted)),
        None => item,
    }
}

/// Remove a dotted path from a table, where it is there.
fn remove_dotted_path(table: &mut toml_edit::Table, dotted: &str)
    ensures
        toml_tree::table_tree(*final(table)) == removed(
            toml_tree::table_tree(*old(table)),
            dotted@,
        ),
    decreases dotted@.len(), 0int,
{
    let letters = text::chars_of(dotted);
    let n: usize = letters.len();
    let dot: usize = text::find_first(&letters, '.');
    if dot >= n {
        toml_tree::table_remove(table, dotted);
        return;
    }
    let head = text::text_of(&letters, 0, dot);
    let rest = text::text_of(&letters, dot + 1, n);
    assert(head@ =~= dotted@.take(dot as int));
    assert(rest@ =~= dotted@.skip(dot + 1));
    proof {
        let tree = toml_tree::table_tree(*table);
        if tree.item_at(head@) is Some {
            lemma_same_item(tree, head@);
        }
    }
    if let Some(item) = toml_tree::table_get_mut(table, head.as_str()) {
        remove_below(item, rest.as_str());
    }
}

/// Remove a dotted path from an inline table, where it is there.
fn remove_from_inline(table: &mut toml_edit::InlineTable, dotted: &str)
    ensures
        toml_tree::inline_tree(*final(table)) == removed(
            toml_tree::inline_tree(*old(table)),
            dotted@,
        ),
    decreases dotted@.len(), 0int,
{
    let letters = text::chars_of(dotted);
    let n: usize = letters.len();
    let dot: usize = text::find_first(&letters, '.');
    if dot >= n {
        toml_tree::inline_remove(table, dotted);
        return;
    }
    let head = text::text_of(&letters, 0, dot);
    let rest = text::text_of(&letters, dot + 1, n);
    assert(head@ =~= dotted@.take(dot as int));
    assert(rest@ =~= dotted@.skip(dot + 1));
    proof {
        let tree = toml_tree::inline_tree(*table);
        if tree.item_at(head@) is Some {
            lemma_same_item(tree, head@);
        }
    }
    if let Some(item) = toml_tree::inline_get_mut(table, head.as_str()) {
        remove_below(item, rest.as_str());
    }
}

/// Remove a dotted path from the table that an item is, where it is one.
fn remove_below(item: &mut toml_edit::Item, dotted: &str)
    ensures
        toml_tree::item_tree(*final(item)) == removed_below(
            toml_tree::item_tree(*old(item)),
            dotted@,
        ),
    decreases dotted@.len(), 1int,
{
    if toml_tree::item_table(item).is_some() {
        if let Some(child) = toml_tree::item_table_mut(item) {
            remove_dotted_path(child, dotted);
        }
    } else if let Some(value) = toml_tree::item_value_mut(item) {
        if let Some(child) = toml_tree::value_inline_mut(value) {
            remove_from_inline(child, dotted);
        }
    }
}

/// A table without what the first `n` of some dotted paths name.
pub open spec fn removed_all(table: TomlTable, paths: Seq<Seq<char>>, n: int) -> TomlTable
    decreases n,
{
    if n <= 0 {
        table
    } else {
        removed(removed_all(table, paths, n - 1), paths[n - 1])
    }
}

/// What is saved: the serialized config laid over the file, without the paths
/// that were declared.
pub open spec fn saved(
    existing: TomlTable,
    serialized: TomlTable,
    removals: Seq<Seq<char>>,
    aliases: Seq<(Seq<char>, Seq<Seq<char>>)>,
) -> TomlTable {
    removed_all(merged_table(existing, serialized, aliases), removals, removals.len() as int)
}

/// Whether a text is what is written of a document with the given root and the
/// given text behind its last entry, with which it then ends.
pub open spec fn writes(text: Seq<char>, written: TomlDocument) -> bool {
    &&& toml_tree::ends_with(text, written.trailing)
    &&& exists|document: toml_edit::Document|
        toml_tree::document_root(document) == Some(written.root) && toml_tree::document_trailing(
            document,
        ) == written.trailing && #[trigger] toml_tree::document_written(document) == text
}

/// Overlay `serialized` onto the parsed `existing` file, then apply `removals`:
/// none of them is there afterwards. What stands behind the last entry of the
/// file stays there.
///
/// `None` where one of the two is no TOML.
pub fn merge_into_existing(
    existing: &str,
    serialized: &str,
    removals: &Vec<String>,
    aliases: &Vec<(String, Vec<String>)>,
) -> (r: Option<String>)
    ensures
        match (toml_tree::toml_parsed(existing@), toml_tree::toml_parsed(serialized@)) {
            (Some(file), Some(config)) => {
                let root = saved(
                    file.root,
                    config.root,
                    model::seq_view(removals@),
                    alias_view(aliases@),
                );
                &&& r is Some
                &&& writes(r->Some_0@, (TomlDocument { root, trailing: file.trailing }))
                &&& forall|k: int|
                    0 <= k < removals@.len() ==> path_at(root, (#[trigger] removals@[k])@) is None
            },
            _ => r is None,
        },
{
    let mut document = match toml_tree::parse_document(existing) {
        Some(document) => document,
        None => {
            return None;
        },
    };
    let config = match toml_tree::parse_document(serialized) {
        Some(config) => config,
        None => {
            return None;
        },
    };
    let ghost file_tree = toml_tree::document_root(document)->Some_0;
    let ghost config_tree = toml_tree::document_root(config)->Some_0;
    let ghost behind = toml_tree::document_trailing(document);
    let ghost names = alias_view(aliases@);
    let ghost all = model::seq_view(removals@);
    let table = toml_tree::root_mut(&mut document);
    merge_table(table, toml_tree::root(&config), aliases);
    let ghost base = merged_table(file_tree, config_tree, names);
    let mut i: usize = 0;
    while i < removals.len()
        invariant
            i <= removals@.len(),
            all == model::seq_view(removals@),
            toml_tree::document_root(document) == Some(removed_all(base, all, i as int)),
            toml_tree::document_trailing(document) == behind,
        decreases removals.len() - i,
    {
        let table = toml_tree::root_mut(&mut document);
        remove_dotted_path(table, removals[i].as_str());
        i += 1;
    }
    let text = toml_tree::write_document(&document);
    assert(toml_tree::document_written(document) == text@);
    assert forall|k: int| 0 <= k < removals@.len() implies path_at(
        saved(file_tree, config_tree, all, names),
        (#[trigger] removals@[k])@,
    ) is None by {
        assert(all[k] == removals@[k]@);
        declared_path_is_gone_after_the_save(file_tree, config_tree, all, names, k);
    }
    Some(text)
}

/// Whether laying an entry over a table leaves a key alone.
pub open spec fn leaves_alone(
    entry: TomlEntry,
    name: Seq<char>,
    aliases: Seq<(Seq<char>, Seq<Seq<char>>)>,
) -> bool {
    entry.item is Nothing || (entry.key.name != name && !spellings(
        aliases,
        entry.key.name,
    ).contains(name))
}

proof fn lemma_without_keeps(table: TomlTable, gone: Seq<char>, name: Seq<char>)
    requires
        gone != name,
    ensures
        table.without(gone).entry_at(name) == table.entry_at(name),
{
    let after = table.without(gone);
    lemma_entry_from(table.entries, gone, 0);
    lemma_entry_from(table.entries, name, 0);
    lemma_entry_from(after.entries, name, 0);
    if let Some(i) = toml_tree::entry_from(table.entries, gone, 0) {
        match toml_tree::entry_from(table.entries, name, 0) {
            Some(j) => {
                let k = if j < i {
                    j
                } else {
                    j - 1
                };
                assert(after.entries[k] == table.entries[j]);
                assert forall|x: int| 0 <= x < k implies (#[trigger] after.entries[x]).key.name
                    != name by {
                    if x < i {
                        assert(after.entries[x] == table.entries[x]);
                    } else {
                        assert(after.entries[x] == table.entries[x + 1]);
                    }
                }
            },
            None => {
                assert forall|x: int| 0 <= x < after.entries.len() implies (
                #[trigger] after.entries[x]).key.name != name by {
                    if x < i {
                        assert(after.entries[x] == table.entries[x]);
                    } else {
                        assert(after.entries[x] == table.entries[x + 1]);
                    }
                }
            },
        }
    }
}

proof fn lemma_with_entry(table: TomlTable, entry: TomlEntry, name: Seq<char>)
    ensures
        table.with_entry(entry).entry_at(name) == if name == entry.key.name {
            Some(entry)
        } else {
            table.entry_at(name)
        },
{
    let after = table.with_entry(entry);
    lemma_entry_from(table.entries, entry.key.name, 0);
    lemma_entry_from(table.entries, name, 0);
    lemma_entry_from(after.entries, name, 0);
    let at = match toml_tree::entry_from(table.entries, entry.key.name, 0) {
        Some(i) => i,
        None => table.entries.len() as int,
    };
    assert(after.entries[at] == entry);
    assert forall|x: int| 0 <= x < table.entries.len() && x != at implies after.entries[x]
        == #[trigger] table.entries[x] by {}
    if name == entry.key.name {
        assert forall|x: int| 0 <= x < at implies (#[trigger] after.entries[x]).key.name
            != name by {
            assert(after.entries[x] == table.entries[x]);
        }
    } else {
        match toml_tree::entry_from(table.entries, name, 0) {
            Some(j) => {
                assert(after.entries[j] == table.entries[j]);
                assert forall|x: int| 0 <= x < j implies (#[trigger] after.entries[x]).key.name
                    != name by {
                    if x != at {
                        assert(after.entries[x] == table.entries[x]);
                    }
                }
            },
            None => {
                assert forall|x: int| 0 <= x < after.entries.len() implies (
                #[trigger] after.entries[x]).key.name != name by {
                    if x != at {
                        assert(after.entries[x] == table.entries[x]);
                    }
                }
            },
        }
    }
}

proof fn lemma_with_item(table: TomlTable, changed: Seq<char>, item: TomlItem, name: Seq<char>)
    ensures
        table.with_item(changed, item).entry_at(name) == match table.entry_at(name) {
            Some(entry) => Some(
                if name == changed {
                    TomlEntry { key: entry.key, item }
                } else {
                    entry
                },
            ),
            None => None,
        },
{
    lemma_entry_from(table.entries, changed, 0);
    if let Some(i) = toml_tree::entry_from(table.entries, changed, 0) {
        let entry = TomlEntry { key: table.entries[i].key, item };
        lemma_with_entry(table, entry, name);
        assert(table.with_item(changed, item) == table.with_entry(entry));
        if name == changed {
            assert(table.entry_at(name) == Some(table.entries[i]));
        }
    } else {
        lemma_entry_from(table.entries, name, 0);
    }
}

proof fn lemma_reconciled_keeps(
    table: TomlTable,
    name: Seq<char>,
    item: TomlItem,
    list: Seq<Seq<char>>,
    n: int,
    other: Seq<char>,
)
    requires
        0 <= n <= list.len(),
        other != name,
        !list.contains(other),
    ensures
        reconciled(table, name, item, list, n).entry_at(other) == table.entry_at(other),
    decreases n,
{
    if n > 0 {
        lemma_reconciled_keeps(table, name, item, list, n - 1, other);
        let before = reconciled(table, name, item, list, n - 1);
        let spelling = list[n - 1];
        assert(list.contains(spelling));
        lemma_without_keeps(before, spelling, other);
        if let Some(i) = toml_tree::entry_from(before.entries, spelling, 0) {
            lemma_with_entry(
                before.without(spelling),
                renamed(name, item, before.entries[i].key.decor),
                other,
            );
        }
    }
}

/// A key that is there keeps its entry while its other spellings go.
proof fn lemma_reconciled_present(
    table: TomlTable,
    name: Seq<char>,
    item: TomlItem,
    list: Seq<Seq<char>>,
    n: int,
)
    requires
        0 <= n <= list.len(),
        table.item_at(name) is Some,
        !list.contains(name),
    ensures
        reconciled(table, name, item, list, n).entry_at(name) == table.entry_at(name),
        reconciled(table, name, item, list, n).item_at(name) == table.item_at(name),
    decreases n,
{
    if n > 0 {
        lemma_reconciled_present(table, name, item, list, n - 1);
        let before = reconciled(table, name, item, list, n - 1);
        assert(list.contains(list[n - 1]));
        lemma_without_keeps(before, list[n - 1], name);
    }
}

proof fn lemma_readied_keeps(
    table: TomlTable,
    name: Seq<char>,
    item: TomlItem,
    other: Seq<char>,
)
    ensures
        other != name ==> readied(table, name, item).entry_at(other) == table.entry_at(other),
        table.item_at(name) is Some ==> {
            &&& readied(table, name, item).item_at(name) is Some
            &&& readied(table, name, item).entry_at(name) == Some(
                if item is Table {
                    opened(table.entry_at(name)->Some_0)
                } else {
                    table.entry_at(name)->Some_0
                },
            )
        },
        table.item_at(name) is None ==> readied(table, name, item) == table,
{
    lemma_entry_from(table.entries, name, 0);
    if table.item_at(name) is Some {
        let entry = table.entry_at(name)->Some_0;
        if other != name {
            lemma_without_keeps(table, name, other);
        }
        lemma_with_entry(table.without(name), opened(entry), other);
        lemma_with_entry(table.without(name), opened(entry), name);
    }
}

proof fn lemma_step_keeps(
    table: TomlTable,
    entry: TomlEntry,
    name: Seq<char>,
    aliases: Seq<(Seq<char>, Seq<Seq<char>>)>,
)
    requires
        leaves_alone(entry, name, aliases),
        !(entry.item is Nothing),
    ensures
        with_merged(table, entry, aliases).entry_at(name) == table.entry_at(name),
{
    let list = spellings(aliases, entry.key.name);
    let spelled = reconciled(table, entry.key.name, entry.item, list, list.len() as int);
    let middle = readied(spelled, entry.key.name, entry.item);
    lemma_reconciled_keeps(table, entry.key.name, entry.item, list, list.len() as int, name);
    lemma_readied_keeps(spelled, entry.key.name, entry.item, name);
    match middle.item_at(entry.key.name) {
        Some(item) => {
            lemma_with_item(
                middle,
                entry.key.name,
                merged_item(item, entry.item, aliases),
                name,
            );
        },
        None => {
            lemma_with_entry(
                middle,
                TomlEntry { key: plain_key(entry.key.name), item: entry.item },
                name,
            );
        },
    }
}

proof fn lemma_entries_keep(
    table: TomlTable,
    entries: Seq<TomlEntry>,
    from: int,
    n: int,
    name: Seq<char>,
    aliases: Seq<(Seq<char>, Seq<Seq<char>>)>,
)
    requires
        0 <= from <= n <= entries.len(),
        forall|i: int| from <= i < n ==> leaves_alone(#[trigger] entries[i], name, aliases),
    ensures
        merged_entries(table, entries, n, aliases).entry_at(name) == merged_entries(
            table,
            entries,
            from,
            aliases,
        ).entry_at(name),
    decreases n,
{
    if n > from {
        lemma_entries_keep(table, entries, from, n - 1, name, aliases);
        let before = merged_entries(table, entries, n - 1, aliases);
        let entry = entries[n - 1];
        if !(entry.item is Nothing) {
            lemma_step_keeps(before, entry, name, aliases);
            assert(merged_entries(table, entries, n, aliases) == with_merged(
                before,
                entry,
                aliases,
            ));
        }
    }
}

/// A key that the config does not state, under any of its spellings, keeps its
/// entry: its value and every comment on it.
pub proof fn unmodelled_key_is_kept(
    target: TomlTable,
    source: TomlTable,
    name: Seq<char>,
    aliases: Seq<(Seq<char>, Seq<Seq<char>>)>,
)
    requires
        forall|i: int|
            0 <= i < source.entries.len() ==> leaves_alone(
                #[trigger] source.entries[i],
                name,
                aliases,
            ),
    ensures
        merged_table(target, source, aliases).entry_at(name) == target.entry_at(name),
{
    lemma_entries_keep(
        target,
        source.entries,
        0,
        source.entries.len() as int,
        name,
        aliases,
    );
}

/// A key that the file has and the config states keeps the comment that is
/// written at it. Where its inline table gets a header, the comment is before the
/// header, and what was behind the table is behind it.
pub proof fn comment_at_a_key_is_kept(
    target: TomlTable,
    source: TomlTable,
    at: int,
    aliases: Seq<(Seq<char>, Seq<Seq<char>>)>,
)
    requires
        0 <= at < source.entries.len(),
        !(source.entries[at].item is Nothing),
        target.item_at(source.entries[at].key.name) is Some,
        !spellings(aliases, source.entries[at].key.name).contains(source.entries[at].key.name),
        forall|i: int|
            0 <= i < source.entries.len() && i != at ==> leaves_alone(
                #[trigger] source.entries[i],
                source.entries[at].key.name,
                aliases,
            ),
    ensures
        ({
            let name = source.entries[at].key.name;
            let after = merged_table(target, source, aliases).entry_at(name);
            let kept = if source.entries[at].item is Table {
                opened(target.entry_at(name)->Some_0)
            } else {
                target.entry_at(name)->Some_0
            };
            &&& after is Some
            &&& after->Some_0.key == kept.key
            &&& after->Some_0.item == merged_item(kept.item, source.entries[at].item, aliases)
        }),
{
    let entries = source.entries;
    let entry = entries[at];
    let name = entry.key.name;
    lemma_entries_keep(target, entries, 0, at, name, aliases);
    let before = merged_entries(target, entries, at, aliases);
    assert(before.entry_at(name) == target.entry_at(name));
    let list = spellings(aliases, name);
    lemma_reconciled_present(before, name, entry.item, list, list.len() as int);
    let spelled = reconciled(before, name, entry.item, list, list.len() as int);
    lemma_readied_keeps(spelled, name, entry.item, name);
    let middle = readied(spelled, name, entry.item);
    let item = middle.item_at(name)->Some_0;
    lemma_with_item(middle, name, merged_item(item, entry.item, aliases), name);
    assert(merged_entries(target, entries, at + 1, aliases) == middle.with_item(
        name,
        merged_item(item, entry.item, aliases),
    ));
    lemma_entries_keep(target, entries, at + 1, entries.len() as int, name, aliases);
}

proof fn lemma_with_header_at(table: TomlTable, name: Seq<char>)
    ensures
        toml_tree::with_header(table).entry_at(name) == match table.entry_at(name) {
            Some(entry) => Some(toml_tree::tidied(entry)),
            None => None,
        },
{
    let after = toml_tree::with_header(table);
    lemma_entry_from(table.entries, name, 0);
    lemma_entry_from(after.entries, name, 0);
    assert forall|i: int| 0 <= i < after.entries.len() implies (#[trigger] after.entries[i])
        == toml_tree::tidied(table.entries[i]) && after.entries[i].key.name
        == table.entries[i].key.name by {}
    if let Some(i) = toml_tree::entry_from(table.entries, name, 0) {
        assert(after.entries[i].key.name == name);
    }
}

/// A key of an inline section that the config does not state is kept, with its
/// value, though the config writes the section.
pub proof fn unmodelled_key_of_an_inline_section_is_kept(
    target: TomlTable,
    source: TomlTable,
    at: int,
    value: TomlValue,
    section: TomlTable,
    key: Seq<char>,
    aliases: Seq<(Seq<char>, Seq<Seq<char>>)>,
)
    requires
        0 <= at < source.entries.len(),
        source.entries[at].item == TomlItem::Table(section),
        target.item_at(source.entries[at].key.name) == Some(TomlItem::Value(value)),
        value.table() is Some,
        !spellings(aliases, source.entries[at].key.name).contains(source.entries[at].key.name),
        forall|i: int|
            0 <= i < source.entries.len() && i != at ==> leaves_alone(
                #[trigger] source.entries[i],
                source.entries[at].key.name,
                aliases,
            ),
        forall|i: int|
            0 <= i < section.entries.len() ==> leaves_alone(
                #[trigger] section.entries[i],
                key,
                aliases,
            ),
    ensures
        ({
            let after = merged_table(target, source, aliases).item_at(
                source.entries[at].key.name,
            );
            &&& after is Some
            &&& after->Some_0 is Table
            &&& after->Some_0->Table_0.entry_at(key) == match value.table()->Some_0.entry_at(key) {
                Some(entry) => Some(toml_tree::tidied(entry)),
                None => None,
            }
        }),
{
    let name = source.entries[at].key.name;
    lemma_entry_from(target.entries, name, 0);
    comment_at_a_key_is_kept(target, source, at, aliases);
    let child = value.table()->Some_0;
    let kept = TomlTable {
        decor: heading(target.entry_at(name)->Some_0.key.decor, value.decor),
        ..toml_tree::with_header(child)
    };
    assert(opened(target.entry_at(name)->Some_0).item == TomlItem::Table(kept));
    unmodelled_key_is_kept(kept, section, key, aliases);
    lemma_with_header_at(child, key);
    assert(kept.entry_at(key) == toml_tree::with_header(child).entry_at(key));
    assert(merged_item(TomlItem::Table(kept), source.entries[at].item, aliases)
        == TomlItem::Table(merged_table(kept, section, aliases)));
}

/// What the file says of a value that the config states, and behind it, is: the
/// config's value, with the file's comment.
pub proof fn stated_value_keeps_its_comment(
    target: TomlValue,
    source: TomlValue,
    aliases: Seq<(Seq<char>, Seq<Seq<char>>)>,
)
    ensures
        merged_item(TomlItem::Value(target), TomlItem::Value(source), aliases) == TomlItem::Value(
            TomlValue { content: source.content, decor: target.decor },
        ),
{
}

/// A key that the config states and the file lacks is there afterwards, with the
/// config's item.
pub proof fn new_key_is_added(
    target: TomlTable,
    source: TomlTable,
    at: int,
    aliases: Seq<(Seq<char>, Seq<Seq<char>>)>,
)
    requires
        0 <= at < source.entries.len(),
        !(source.entries[at].item is Nothing),
        target.item_at(source.entries[at].key.name) is None,
        spellings(aliases, source.entries[at].key.name).len() == 0,
        forall|i: int|
            0 <= i < source.entries.len() && i != at ==> leaves_alone(
                #[trigger] source.entries[i],
                source.entries[at].key.name,
                aliases,
            ),
    ensures
        merged_table(target, source, aliases).entry_at(source.entries[at].key.name) == Some(
            TomlEntry {
                key: plain_key(source.entries[at].key.name),
                item: source.entries[at].item,
            },
        ),
{
    let entries = source.entries;
    let entry = entries[at];
    let name = entry.key.name;
    lemma_entries_keep(target, entries, 0, at, name, aliases);
    let before = merged_entries(target, entries, at, aliases);
    assert(before.entry_at(name) == target.entry_at(name));
    let fresh = TomlEntry { key: plain_key(name), item: entry.item };
    lemma_with_entry(before, fresh, name);
    assert(before.item_at(name) is None);
    assert(merged_entries(target, entries, at + 1, aliases) == before.with_entry(fresh));
    lemma_entries_keep(target, entries, at + 1, entries.len() as int, name, aliases);
}

/// What stands at a dotted path. The tables along it can have headers or be
/// inline.
pub open spec fn path_at(table: TomlTable, dotted: Seq<char>) -> Option<TomlItem>
    decreases dotted.len(),
{
    let dot = text::first_index(dotted, '.');
    if dot < 0 || dot >= dotted.len() {
        table.item_at(dotted)
    } else {
        match table.item_at(dotted.take(dot)) {
            Some(item) => match item.table() {
                Some(child) => path_at(child, dotted.skip(dot + 1)),
                None => None,
            },
            None => None,
        }
    }
}

/// No key occurs twice in the tables along a path.
pub open spec fn distinct_along(table: TomlTable, dotted: Seq<char>) -> bool
    decreases dotted.len(),
{
    let dot = text::first_index(dotted, '.');
    &&& table.distinct()
    &&& dot < 0 || dot >= dotted.len() || match table.item_at(dotted.take(dot)) {
        Some(item) => match item.table() {
            Some(child) => distinct_along(child, dotted.skip(dot + 1)),
            None => true,
        },
        None => true,
    }
}

/// A path that was declared is gone after the save, however deep it is.
pub proof fn removed_path_is_gone(table: TomlTable, dotted: Seq<char>)
    requires
        distinct_along(table, dotted),
    ensures
        path_at(removed(table, dotted), dotted) is None,
    decreases dotted.len(),
{
    let dot = text::first_index(dotted, '.');
    if dot < 0 || dot >= dotted.len() {
        let after = table.without(dotted);
        lemma_entry_from(table.entries, dotted, 0);
        lemma_entry_from(after.entries, dotted, 0);
        if let Some(i) = toml_tree::entry_from(table.entries, dotted, 0) {
            assert forall|x: int| 0 <= x < after.entries.len() implies (
            #[trigger] after.entries[x]).key.name != dotted by {
                if x < i {
                    assert(after.entries[x] == table.entries[x]);
                } else {
                    assert(after.entries[x] == table.entries[x + 1]);
                    assert(table.entries[i].key.name != table.entries[x + 1].key.name);
                }
            }
        }
    } else {
        let head = dotted.take(dot);
        let rest = dotted.skip(dot + 1);
        if let Some(item) = table.item_at(head) {
            if let Some(child) = item.table() {
                removed_path_is_gone(child, rest);
                lemma_with_item(table, head, item.with_table(removed(child, rest)), head);
            }
        }
    }
}

/// Removing a path leaves every key alone but the one that the path begins with.
pub proof fn removal_leaves_other_keys_alone(
    table: TomlTable,
    dotted: Seq<char>,
    name: Seq<char>,
)
    requires
        name != dotted.take(text::first_index(dotted, '.')),
    ensures
        removed(table, dotted).entry_at(name) == table.entry_at(name),
{
    text::lemma_first_index(dotted, '.');
    let dot = text::first_index(dotted, '.');
    if dot >= dotted.len() {
        assert(dotted.take(dot) =~= dotted);
        lemma_without_keeps(table, dotted, name);
    } else {
        let head = dotted.take(dot);
        if let Some(item) = table.item_at(head) {
            if let Some(child) = item.table() {
                lemma_with_item(
                    table,
                    head,
                    item.with_table(removed(child, dotted.skip(dot + 1))),
                    name,
                );
            }
        }
    }
}

proof fn lemma_distinct_without(table: TomlTable, name: Seq<char>)
    requires
        table.distinct(),
    ensures
        table.without(name).distinct(),
        table.without(name).entry_at(name) is None,
{
    let after = table.without(name);
    lemma_entry_from(table.entries, name, 0);
    lemma_entry_from(after.entries, name, 0);
    if let Some(i) = toml_tree::entry_from(table.entries, name, 0) {
        assert forall|x: int| 0 <= x < after.entries.len() implies #[trigger] after.entries[x]
            == table.entries[if x < i {
            x
        } else {
            x + 1
        }] by {}
        assert forall|x: int| 0 <= x < after.entries.len() implies (
        #[trigger] after.entries[x]).key.name != name by {
            if x >= i {
                assert(table.entries[i].key.name != table.entries[x + 1].key.name);
            }
        }
        assert forall|x: int, y: int| 0 <= x < y < after.entries.len() implies (
        #[trigger] after.entries[x]).key.name != (#[trigger] after.entries[y]).key.name by {
            let a = if x < i {
                x
            } else {
                x + 1
            };
            let b = if y < i {
                y
            } else {
                y + 1
            };
            assert(table.entries[a].key.name != table.entries[b].key.name);
        }
    }
}

proof fn lemma_distinct_with_entry(table: TomlTable, entry: TomlEntry)
    requires
        table.distinct(),
    ensures
        table.with_entry(entry).distinct(),
{
    let after = table.with_entry(entry);
    lemma_entry_from(table.entries, entry.key.name, 0);
    match toml_tree::entry_from(table.entries, entry.key.name, 0) {
        Some(i) => {
            assert forall|x: int, y: int| 0 <= x < y < after.entries.len() implies (
            #[trigger] after.entries[x]).key.name != (#[trigger] after.entries[y]).key.name by {
                assert(after.entries[x].key.name == table.entries[x].key.name);
                assert(after.entries[y].key.name == table.entries[y].key.name);
            }
        },
        None => {
            assert forall|x: int, y: int| 0 <= x < y < after.entries.len() implies (
            #[trigger] after.entries[x]).key.name != (#[trigger] after.entries[y]).key.name by {
                assert(after.entries[x] == table.entries[x]);
                if y < table.entries.len() {
                    assert(after.entries[y] == table.entries[y]);
                }
            }
        },
    }
}

proof fn lemma_distinct_with_item(table: TomlTable, name: Seq<char>, item: TomlItem)
    requires
        table.distinct(),
    ensures
        table.with_item(name, item).distinct(),
{
    let after = table.with_item(name, item);
    lemma_entry_from(table.entries, name, 0);
    assert forall|x: int, y: int| 0 <= x < y < after.entries.len() implies (
    #[trigger] after.entries[x]).key.name != (#[trigger] after.entries[y]).key.name by {
        assert(after.entries[x].key.name == table.entries[x].key.name);
        assert(after.entries[y].key.name == table.entries[y].key.name);
    }
}

proof fn lemma_distinct_reconciled(
    table: TomlTable,
    name: Seq<char>,
    item: TomlItem,
    list: Seq<Seq<char>>,
    n: int,
)
    requires
        table.distinct(),
        0 <= n <= list.len(),
    ensures
        reconciled(table, name, item, list, n).distinct(),
        forall|j: int|
            0 <= j < n && list[j] != name ==> reconciled(table, name, item, list, n).entry_at(
                #[trigger] list[j],
            ) is None,
    decreases n,
{
    if n > 0 {
        lemma_distinct_reconciled(table, name, item, list, n - 1);
        let before = reconciled(table, name, item, list, n - 1);
        let after = reconciled(table, name, item, list, n);
        let spelling = list[n - 1];
        lemma_distinct_without(before, spelling);
        lemma_entry_from(before.entries, spelling, 0);
        let middle = before.without(spelling);
        if before.item_at(name) is None {
            if let Some(i) = toml_tree::entry_from(before.entries, spelling, 0) {
                lemma_distinct_with_entry(
                    middle,
                    renamed(name, item, before.entries[i].key.decor),
                );
            }
        }
        assert forall|j: int| 0 <= j < n && list[j] != name implies after.entry_at(
            #[trigger] list[j],
        ) is None by {
            if list[j] != spelling {
                lemma_without_keeps(before, spelling, list[j]);
            }
            if before.item_at(name) is None {
                if let Some(i) = toml_tree::entry_from(before.entries, spelling, 0) {
                    lemma_with_entry(
                        middle,
                        renamed(name, item, before.entries[i].key.decor),
                        list[j],
                    );
                }
            }
        }
    }
}

proof fn lemma_distinct_readied(table: TomlTable, name: Seq<char>, item: TomlItem)
    requires
        table.distinct(),
    ensures
        readied(table, name, item).distinct(),
{
    if table.item_at(name) is Some {
        lemma_distinct_without(table, name);
        lemma_distinct_with_entry(table.without(name), opened(table.entry_at(name)->Some_0));
    }
}

proof fn lemma_distinct_step(
    table: TomlTable,
    entry: TomlEntry,
    aliases: Seq<(Seq<char>, Seq<Seq<char>>)>,
)
    requires
        table.distinct(),
    ensures
        with_merged(table, entry, aliases).distinct(),
{
    let name = entry.key.name;
    let list = spellings(aliases, name);
    let spelled = reconciled(table, name, entry.item, list, list.len() as int);
    let middle = readied(spelled, name, entry.item);
    lemma_distinct_reconciled(table, name, entry.item, list, list.len() as int);
    lemma_distinct_readied(spelled, name, entry.item);
    match middle.item_at(name) {
        Some(item) => {
            lemma_distinct_with_item(middle, name, merged_item(item, entry.item, aliases));
        },
        None => {
            lemma_distinct_with_entry(
                middle,
                TomlEntry { key: plain_key(name), item: entry.item },
            );
        },
    }
}

/// A merge does not make a key occur twice.
pub proof fn merge_keeps_keys_distinct(
    target: TomlTable,
    entries: Seq<TomlEntry>,
    n: int,
    aliases: Seq<(Seq<char>, Seq<Seq<char>>)>,
)
    requires
        target.distinct(),
        0 <= n <= entries.len(),
    ensures
        merged_entries(target, entries, n, aliases).distinct(),
    decreases n,
{
    if n > 0 {
        merge_keeps_keys_distinct(target, entries, n - 1, aliases);
        let before = merged_entries(target, entries, n - 1, aliases);
        if !(entries[n - 1].item is Nothing) {
            lemma_distinct_step(before, entries[n - 1], aliases);
            assert(merged_entries(target, entries, n, aliases) == with_merged(
                before,
                entries[n - 1],
                aliases,
            ));
        }
    }
}

/// A key that the config states is left with one spelling: none of its others
/// stands in the file afterwards, unless the config states that too.
pub proof fn other_spellings_are_gone(
    target: TomlTable,
    source: TomlTable,
    at: int,
    spelling: Seq<char>,
    aliases: Seq<(Seq<char>, Seq<Seq<char>>)>,
)
    requires
        target.distinct(),
        0 <= at < source.entries.len(),
        !(source.entries[at].item is Nothing),
        spellings(aliases, source.entries[at].key.name).contains(spelling),
        spelling != source.entries[at].key.name,
        forall|i: int|
            0 <= i < source.entries.len() && i != at ==> leaves_alone(
                #[trigger] source.entries[i],
                spelling,
                aliases,
            ),
    ensures
        merged_table(target, source, aliases).entry_at(spelling) is None,
{
    let entries = source.entries;
    let entry = entries[at];
    let name = entry.key.name;
    let list = spellings(aliases, name);
    merge_keeps_keys_distinct(target, entries, at, aliases);
    let before = merged_entries(target, entries, at, aliases);
    let spelled = reconciled(before, name, entry.item, list, list.len() as int);
    let middle = readied(spelled, name, entry.item);
    lemma_distinct_reconciled(before, name, entry.item, list, list.len() as int);
    let j = choose|j: int| 0 <= j < list.len() && list[j] == spelling;
    assert(spelled.entry_at(list[j]) is None);
    lemma_readied_keeps(spelled, name, entry.item, spelling);
    match middle.item_at(name) {
        Some(item) => {
            lemma_with_item(middle, name, merged_item(item, entry.item, aliases), spelling);
        },
        None => {
            lemma_with_entry(
                middle,
                TomlEntry { key: plain_key(name), item: entry.item },
                spelling,
            );
        },
    }
    assert(merged_entries(target, entries, at + 1, aliases) == with_merged(
        before,
        entry,
        aliases,
    ));
    lemma_entries_keep(target, entries, at + 1, entries.len() as int, spelling, aliases);
}

proof fn lemma_once_at(table: TomlTable, name: Seq<char>)
    requires
        toml_tree::keys_once(table.entries),
    ensures
        table.distinct(),
        match table.item_at(name) {
            Some(item) => toml_tree::keys_once_in(item) && match item.table() {
                Some(child) => toml_tree::keys_once(child.entries),
                None => true,
            },
            None => true,
        },
{
    lemma_entry_from(table.entries, name, 0);
    if let Some(i) = toml_tree::entry_from(table.entries, name, 0) {
        assert(toml_tree::keys_once_in(table.entries[i].item));
    }
}

proof fn lemma_once_without(table: TomlTable, name: Seq<char>)
    requires
        toml_tree::keys_once(table.entries),
    ensures
        toml_tree::keys_once(table.without(name).entries),
{
    let after = table.without(name);
    assert(table.distinct());
    lemma_distinct_without(table, name);
    lemma_entry_from(table.entries, name, 0);
    assert forall|x: int| 0 <= x < after.entries.len() implies toml_tree::keys_once_in(
        (#[trigger] after.entries[x]).item,
    ) by {
        match toml_tree::entry_from(table.entries, name, 0) {
            Some(i) => {
                let k = if x < i {
                    x
                } else {
                    x + 1
                };
                assert(after.entries[x] == table.entries[k]);
            },
            None => {
                assert(after.entries[x] == table.entries[x]);
            },
        }
    }
    assert forall|i: int, j: int| 0 <= i < j < after.entries.len() implies (
    #[trigger] after.entries[i]).key.name != (#[trigger] after.entries[j]).key.name by {
        assert(after.distinct());
    }
}

proof fn lemma_once_with_entry(table: TomlTable, entry: TomlEntry)
    requires
        toml_tree::keys_once(table.entries),
        toml_tree::keys_once_in(entry.item),
    ensures
        toml_tree::keys_once(table.with_entry(entry).entries),
{
    let after = table.with_entry(entry);
    assert(table.distinct());
    lemma_distinct_with_entry(table, entry);
    lemma_entry_from(table.entries, entry.key.name, 0);
    assert forall|x: int| 0 <= x < after.entries.len() implies toml_tree::keys_once_in(
        (#[trigger] after.entries[x]).item,
    ) by {
        if after.entries[x] != entry {
            assert(after.entries[x] == table.entries[x]);
        }
    }
    assert forall|i: int, j: int| 0 <= i < j < after.entries.len() implies (
    #[trigger] after.entries[i]).key.name != (#[trigger] after.entries[j]).key.name by {
        assert(after.distinct());
    }
}

proof fn lemma_once_with_item(table: TomlTable, name: Seq<char>, item: TomlItem)
    requires
        toml_tree::keys_once(table.entries),
        toml_tree::keys_once_in(item),
    ensures
        toml_tree::keys_once(table.with_item(name, item).entries),
{
    lemma_entry_from(table.entries, name, 0);
    if let Some(i) = toml_tree::entry_from(table.entries, name, 0) {
        let entry = TomlEntry { key: table.entries[i].key, item };
        assert(table.with_item(name, item) == table.with_entry(entry));
        lemma_once_with_entry(table, entry);
    }
}

proof fn lemma_once_reconciled(
    table: TomlTable,
    name: Seq<char>,
    item: TomlItem,
    list: Seq<Seq<char>>,
    n: int,
)
    requires
        toml_tree::keys_once(table.entries),
        toml_tree::keys_once_in(item),
        0 <= n <= list.len(),
    ensures
        toml_tree::keys_once(reconciled(table, name, item, list, n).entries),
    decreases n,
{
    if n > 0 {
        lemma_once_reconciled(table, name, item, list, n - 1);
        let before = reconciled(table, name, item, list, n - 1);
        let spelling = list[n - 1];
        lemma_once_without(before, spelling);
        if before.item_at(name) is None {
            if let Some(i) = toml_tree::entry_from(before.entries, spelling, 0) {
                let entry = renamed(name, item, before.entries[i].key.decor);
                assert(toml_tree::keys_once_in(entry.item));
                lemma_once_with_entry(before.without(spelling), entry);
            }
        }
    }
}

proof fn lemma_once_readied(table: TomlTable, name: Seq<char>, item: TomlItem)
    requires
        toml_tree::keys_once(table.entries),
    ensures
        toml_tree::keys_once(readied(table, name, item).entries),
{
    if let Some(TomlItem::Value(value)) = table.item_at(name) {
        if let Some(child) = value.table() {
            lemma_once_at(table, name);
            lemma_entry_from(table.entries, name, 0);
            lemma_once_without(table, name);
            let entry = opened(table.entry_at(name)->Some_0);
            let after = toml_tree::with_header(child).entries;
            assert forall|i: int| 0 <= i < after.len() implies toml_tree::keys_once_in(
                (#[trigger] after[i]).item,
            ) by {
                assert(after[i] == toml_tree::tidied(child.entries[i]));
                assert(toml_tree::keys_once_in(child.entries[i].item));
            }
            assert forall|i: int, j: int| 0 <= i < j < after.len() implies (
            #[trigger] after[i]).key.name != (#[trigger] after[j]).key.name by {
                assert(after[i] == toml_tree::tidied(child.entries[i]));
                assert(after[j] == toml_tree::tidied(child.entries[j]));
                assert(child.entries[i].key.name != child.entries[j].key.name);
            }
            assert(toml_tree::keys_once(after));
            assert(toml_tree::keys_once_in(entry.item));
            lemma_once_with_entry(table.without(name), entry);
        }
    }
}

proof fn lemma_once_merged_item(
    target: TomlItem,
    source: TomlItem,
    aliases: Seq<(Seq<char>, Seq<Seq<char>>)>,
)
    requires
        toml_tree::keys_once_in(target),
        toml_tree::keys_once_in(source),
    ensures
        toml_tree::keys_once_in(merged_item(target, source, aliases)),
    decreases source, 0int,
{
    if let TomlItem::Table(s) = source {
        if let TomlItem::Table(t) = target {
            lemma_once_merged(t, s.entries, s.entries.len() as int, aliases);
        }
    }
}

proof fn lemma_once_merged(
    target: TomlTable,
    entries: Seq<TomlEntry>,
    n: int,
    aliases: Seq<(Seq<char>, Seq<Seq<char>>)>,
)
    requires
        toml_tree::keys_once(target.entries),
        toml_tree::keys_once(entries),
        0 <= n <= entries.len(),
    ensures
        toml_tree::keys_once(merged_entries(target, entries, n, aliases).entries),
    decreases entries, n,
{
    if n > 0 {
        lemma_once_merged(target, entries, n - 1, aliases);
        let before = merged_entries(target, entries, n - 1, aliases);
        let entry = entries[n - 1];
        assert(toml_tree::keys_once_in(entry.item));
        if !(entry.item is Nothing) {
            let name = entry.key.name;
            let list = spellings(aliases, name);
            let spelled = reconciled(before, name, entry.item, list, list.len() as int);
            let table = readied(spelled, name, entry.item);
            lemma_once_reconciled(before, name, entry.item, list, list.len() as int);
            lemma_once_readied(spelled, name, entry.item);
            lemma_once_at(table, name);
            match table.item_at(name) {
                Some(item) => {
                    lemma_once_merged_item(item, entry.item, aliases);
                    lemma_once_with_item(table, name, merged_item(item, entry.item, aliases));
                },
                None => {
                    lemma_once_with_entry(
                        table,
                        TomlEntry { key: plain_key(name), item: entry.item },
                    );
                },
            }
        }
    }
}

/// What is saved has no key twice in any table, where neither the file nor the
/// config has.
pub proof fn save_keeps_keys_distinct(
    existing: TomlTable,
    serialized: TomlTable,
    removals: Seq<Seq<char>>,
    aliases: Seq<(Seq<char>, Seq<Seq<char>>)>,
)
    requires
        toml_tree::keys_once(existing.entries),
        toml_tree::keys_once(serialized.entries),
    ensures
        toml_tree::keys_once(saved(existing, serialized, removals, aliases).entries),
{
    lemma_once_merged(existing, serialized.entries, serialized.entries.len() as int, aliases);
    lemma_once_removed_all(
        merged_table(existing, serialized, aliases),
        removals,
        removals.len() as int,
    );
}

proof fn lemma_once_removed(table: TomlTable, dotted: Seq<char>)
    requires
        toml_tree::keys_once(table.entries),
    ensures
        toml_tree::keys_once(removed(table, dotted).entries),
    decreases dotted.len(),
{
    let dot = text::first_index(dotted, '.');
    if dot < 0 || dot >= dotted.len() {
        lemma_once_without(table, dotted);
    } else {
        let head = dotted.take(dot);
        let rest = dotted.skip(dot + 1);
        lemma_once_at(table, head);
        if let Some(item) = table.item_at(head) {
            if let Some(child) = item.table() {
                lemma_once_removed(child, rest);
                let after = item.with_table(removed(child, rest));
                assert(toml_tree::keys_once_in(after));
                lemma_once_with_item(table, head, after);
            }
        }
    }
}

proof fn lemma_once_removed_all(table: TomlTable, paths: Seq<Seq<char>>, n: int)
    requires
        toml_tree::keys_once(table.entries),
        0 <= n <= paths.len(),
    ensures
        toml_tree::keys_once(removed_all(table, paths, n).entries),
    decreases n,
{
    if n > 0 {
        lemma_once_removed_all(table, paths, n - 1);
        lemma_once_removed(removed_all(table, paths, n - 1), paths[n - 1]);
    }
}

proof fn lemma_once_along(table: TomlTable, dotted: Seq<char>)
    requires
        toml_tree::keys_once(table.entries),
    ensures
        distinct_along(table, dotted),
    decreases dotted.len(),
{
    let dot = text::first_index(dotted, '.');
    assert(table.distinct());
    if 0 <= dot < dotted.len() {
        lemma_once_at(table, dotted.take(dot));
        if let Some(item) = table.item_at(dotted.take(dot)) {
            if let Some(child) = item.table() {
                lemma_once_along(child, dotted.skip(dot + 1));
            }
        }
    }
}

/// The key that a dotted path begins with.
pub open spec fn head_of(dotted: Seq<char>) -> Seq<char> {
    dotted.take(text::first_index(dotted, '.'))
}

/// A path that is not there does not come back when another is removed.
pub proof fn gone_path_stays_gone(table: TomlTable, gone: Seq<char>, dotted: Seq<char>)
    requires
        toml_tree::keys_once(table.entries),
        path_at(table, gone) is None,
    ensures
        path_at(removed(table, dotted), gone) is None,
    decreases gone.len(),
{
    text::lemma_first_index(gone, '.');
    text::lemma_first_index(dotted, '.');
    let g = text::first_index(gone, '.');
    let d = text::first_index(dotted, '.');
    let after = removed(table, dotted);
    assert(table.distinct());
    assert(g >= gone.len() ==> head_of(gone) =~= gone);
    assert(d >= dotted.len() ==> head_of(dotted) =~= dotted);
    if head_of(gone) != head_of(dotted) {
        removal_leaves_other_keys_alone(table, dotted, head_of(gone));
        assert(after.item_at(head_of(gone)) == table.item_at(head_of(gone)));
    } else if d >= dotted.len() {
        lemma_distinct_without(table, dotted);
        assert(after.item_at(head_of(gone)) is None);
    } else {
        let head = head_of(dotted);
        lemma_once_at(table, head);
        if let Some(item) = table.item_at(head) {
            if let Some(child) = item.table() {
                let rest = dotted.skip(d + 1);
                lemma_with_item(table, head, item.with_table(removed(child, rest)), head);
                if g < gone.len() {
                    gone_path_stays_gone(child, gone.skip(g + 1), rest);
                }
            }
        }
    }
}

proof fn lemma_removed_all_gone(table: TomlTable, paths: Seq<Seq<char>>, n: int, k: int)
    requires
        toml_tree::keys_once(table.entries),
        0 <= k < n <= paths.len(),
    ensures
        path_at(removed_all(table, paths, n), paths[k]) is None,
    decreases n,
{
    let before = removed_all(table, paths, n - 1);
    lemma_once_removed_all(table, paths, n - 1);
    if k == n - 1 {
        lemma_once_along(before, paths[k]);
        removed_path_is_gone(before, paths[k]);
    } else {
        lemma_removed_all_gone(table, paths, n - 1, k);
        gone_path_stays_gone(before, paths[k], paths[n - 1]);
    }
}

/// Every path that was declared is gone after the save, however deep it is,
/// whatever kind of table it is in, and whatever else was declared.
pub proof fn declared_path_is_gone_after_the_save(
    existing: TomlTable,
    serialized: TomlTable,
    removals: Seq<Seq<char>>,
    aliases: Seq<(Seq<char>, Seq<Seq<char>>)>,
    k: int,
)
    requires
        toml_tree::keys_once(existing.entries),
        toml_tree::keys_once(serialized.entries),
        0 <= k < removals.len(),
    ensures
        path_at(saved(existing, serialized, removals, aliases), removals[k]) is None,
{
    lemma_once_merged(existing, serialized.entries, serialized.entries.len() as int, aliases);
    lemma_removed_all_gone(
        merged_table(existing, serialized, aliases),
        removals,
        removals.len() as int,
        k,
    );
}

/// A value that the config states is the value in the file afterwards, with the
/// comment that the file had at it. Where the file had a table, it is replaced.
pub proof fn stated_value_is_saved(
    target: TomlTable,
    source: TomlTable,
    at: int,
    value: TomlValue,
    aliases: Seq<(Seq<char>, Seq<Seq<char>>)>,
)
    requires
        0 <= at < source.entries.len(),
        source.entries[at].item == TomlItem::Value(value),
        target.item_at(source.entries[at].key.name) is Some,
        !spellings(aliases, source.entries[at].key.name).contains(source.entries[at].key.name),
        forall|i: int|
            0 <= i < source.entries.len() && i != at ==> leaves_alone(
                #[trigger] source.entries[i],
                source.entries[at].key.name,
                aliases,
            ),
    ensures
        ({
            let name = source.entries[at].key.name;
            let had = target.item_at(name)->Some_0;
            let got = merged_table(target, source, aliases).item_at(name);
            &&& got is Some
            &&& got->Some_0 is Value
            &&& got->Some_0->Value_0.content == value.content
            &&& had is Value ==> got->Some_0->Value_0.decor == had->Value_0.decor
            &&& !(had is Value) ==> got->Some_0->Value_0.decor == value.decor
        }),
{
    lemma_entry_from(target.entries, source.entries[at].key.name, 0);
    comment_at_a_key_is_kept(target, source, at, aliases);
}

/// A section that both have is merged key by key; one that the file had as
/// something else is the config's.
pub proof fn stated_section_is_merged_key_by_key(
    target: TomlTable,
    source: TomlTable,
    at: int,
    section: TomlTable,
    aliases: Seq<(Seq<char>, Seq<Seq<char>>)>,
)
    requires
        0 <= at < source.entries.len(),
        source.entries[at].item == TomlItem::Table(section),
        target.item_at(source.entries[at].key.name) is Some,
        !spellings(aliases, source.entries[at].key.name).contains(source.entries[at].key.name),
        forall|i: int|
            0 <= i < source.entries.len() && i != at ==> leaves_alone(
                #[trigger] source.entries[i],
                source.entries[at].key.name,
                aliases,
            ),
    ensures
        ({
            let name = source.entries[at].key.name;
            let had = target.item_at(name)->Some_0;
            let got = merged_table(target, source, aliases).item_at(name);
            &&& got is Some
            &&& had is Table ==> got->Some_0 == TomlItem::Table(
                merged_table(had->Table_0, section, aliases),
            )
            &&& had is Tables ==> got->Some_0 == TomlItem::Table(section)
            &&& had is Value && had->Value_0.content is Text ==> got->Some_0 == TomlItem::Table(
                section,
            )
        }),
{
    lemma_entry_from(target.entries, source.entries[at].key.name, 0);
    comment_at_a_key_is_kept(target, source, at, aliases);
}

/// An inline table that gets a header has its entries in their order under the
/// same names, with the same values. The comment at the key goes before the
/// header, and what was behind the table behind it.
pub proof fn opened_section_keeps_its_entries(entry: TomlEntry, entries: Seq<TomlEntry>, i: int)
    requires
        entry.item is Value,
        entry.item->Value_0.content == toml_tree::TomlContent::Inline(entries),
        0 <= i < entries.len(),
    ensures
        ({
            let after = opened(entry);
            let table = after.item->Table_0;
            &&& after.key.name == entry.key.name
            &&& after.item is Table
            &&& table.entries.len() == entries.len()
            &&& table.entries[i].key.name == entries[i].key.name
            &&& entries[i].item is Value ==> table.entries[i].item is Value
                && table.entries[i].item->Value_0.content == entries[i].item->Value_0.content
            &&& !(entries[i].item is Value) ==> table.entries[i] == entries[i]
            &&& table.decor.prefix == entry.key.decor.prefix
            &&& table.decor.suffix is Some
            &&& entry.item->Value_0.decor.suffix is Some ==> table.decor.suffix
                == entry.item->Value_0.decor.suffix
            &&& entry.item->Value_0.decor.suffix is None ==> table.decor.suffix->Some_0.len() == 0
        }),
{
}

proof fn lemma_reconciled_none(
    table: TomlTable,
    name: Seq<char>,
    item: TomlItem,
    list: Seq<Seq<char>>,
    n: int,
)
    requires
        0 <= n <= list.len(),
        table.item_at(name) is None,
        forall|k: int| 0 <= k < n ==> table.entry_at(#[trigger] list[k]) is None,
    ensures
        reconciled(table, name, item, list, n) == table,
    decreases n,
{
    if n > 0 {
        lemma_reconciled_none(table, name, item, list, n - 1);
        assert(table.entry_at(list[n - 1]) is None);
    }
}

proof fn lemma_reconciled_renamed(
    table: TomlTable,
    name: Seq<char>,
    item: TomlItem,
    list: Seq<Seq<char>>,
    at: int,
    n: int,
)
    requires
        0 <= at < n <= list.len(),
        !(item is Nothing),
        table.item_at(name) is None,
        forall|k: int| 0 <= k < at ==> table.entry_at(#[trigger] list[k]) is None,
        table.entry_at(list[at]) is Some,
        !list.contains(name),
    ensures
        reconciled(table, name, item, list, n).entry_at(name) == Some(
            renamed(name, item, table.entry_at(list[at])->Some_0.key.decor),
        ),
    decreases n,
{
    if n == at + 1 {
        lemma_reconciled_none(table, name, item, list, at);
        lemma_entry_from(table.entries, list[at], 0);
        let i = toml_tree::entry_from(table.entries, list[at], 0)->Some_0;
        lemma_with_entry(
            table.without(list[at]),
            renamed(name, item, table.entries[i].key.decor),
            name,
        );
    } else {
        lemma_reconciled_renamed(table, name, item, list, at, n - 1);
        let before = reconciled(table, name, item, list, n - 1);
        lemma_entry_from(before.entries, name, 0);
        assert(before.item_at(name) is Some);
        assert(list.contains(list[n - 1]));
        lemma_without_keeps(before, list[n - 1], name);
    }
}

/// A value that the file states under another spelling of its key is there
/// under the key afterwards, as the config states it, with the comment that was
/// at the first of the spellings that the file has.
pub proof fn other_spelling_becomes_the_key(
    target: TomlTable,
    source: TomlTable,
    at: int,
    value: TomlValue,
    spelling: int,
    aliases: Seq<(Seq<char>, Seq<Seq<char>>)>,
)
    requires
        0 <= at < source.entries.len(),
        source.entries[at].item == TomlItem::Value(value),
        target.item_at(source.entries[at].key.name) is None,
        ({
            let list = spellings(aliases, source.entries[at].key.name);
            &&& !list.contains(source.entries[at].key.name)
            &&& 0 <= spelling < list.len()
            &&& target.entry_at(list[spelling]) is Some
            &&& forall|k: int| 0 <= k < spelling ==> target.entry_at(#[trigger] list[k]) is None
            &&& forall|i: int, k: int|
                0 <= i < at && 0 <= k < list.len() ==> leaves_alone(
                    #[trigger] source.entries[i],
                    #[trigger] list[k],
                    aliases,
                )
        }),
        forall|i: int|
            0 <= i < source.entries.len() && i != at ==> leaves_alone(
                #[trigger] source.entries[i],
                source.entries[at].key.name,
                aliases,
            ),
    ensures
        ({
            let name = source.entries[at].key.name;
            let list = spellings(aliases, name);
            let got = merged_table(target, source, aliases).entry_at(name);
            &&& got is Some
            &&& got->Some_0.key.decor == target.entry_at(list[spelling])->Some_0.key.decor
            &&& got->Some_0.item == TomlItem::Value(value)
        }),
{
    let entries = source.entries;
    let entry = entries[at];
    let name = entry.key.name;
    let list = spellings(aliases, name);
    let before = merged_entries(target, entries, at, aliases);
    lemma_entries_keep(target, entries, 0, at, name, aliases);
    assert forall|k: int| 0 <= k < list.len() implies before.entry_at(#[trigger] list[k])
        == target.entry_at(list[k]) by {
        lemma_entries_keep(target, entries, 0, at, list[k], aliases);
    }
    assert(before.item_at(name) is None) by {
        lemma_entry_from(target.entries, name, 0);
        lemma_entry_from(before.entries, name, 0);
        assert(before.entry_at(name) == target.entry_at(name));
    }
    lemma_reconciled_renamed(before, name, entry.item, list, spelling, list.len() as int);
    let spelled = reconciled(before, name, entry.item, list, list.len() as int);
    lemma_entry_from(spelled.entries, name, 0);
    let middle = readied(spelled, name, entry.item);
    assert(middle == spelled);
    let item = middle.item_at(name)->Some_0;
    assert(item == entry.item);
    lemma_with_item(middle, name, merged_item(item, entry.item, aliases), name);
    assert(merged_entries(target, entries, at + 1, aliases) == middle.with_item(
        name,
        merged_item(item, entry.item, aliases),
    ));
    lemma_entries_keep(target, entries, at + 1, entries.len() as int, name, aliases);
}

proof fn lemma_first_dot(head: Seq<char>, rest: Seq<char>)
    requires
        !head.contains('.'),
    ensures
        text::first_index(head + seq!['.'] + rest, '.') == head.len(),
        text::first_index(head, '.') == head.len(),
        (head + seq!['.'] + rest).take(head.len() as int) == head,
        (head + seq!['.'] + rest).skip(head.len() as int + 1) == rest,
{
    let s = head + seq!['.'] + rest;
    text::lemma_first_index(s, '.');
    text::lemma_first_index(head, '.');
    assert(s[head.len() as int] == '.');
    let at = text::first_index(s, '.');
    if at < head.len() {
        assert(s[at] == head[at]);
        assert(head.contains('.'));
    }
    assert(s.take(head.len() as int) =~= head);
    assert(s.skip(head.len() as int + 1) =~= rest);
}

/// A path goes down one table at each dot: what stands at it is what stands at
/// the rest of it in the table under its first name.
pub proof fn path_goes_down_at_each_dot(
    table: TomlTable,
    head: Seq<char>,
    rest: Seq<char>,
    child: TomlTable,
)
    requires
        !head.contains('.'),
    ensures
        path_at(table, head) == table.item_at(head),
        table.item_at(head) is Some && table.item_at(head)->Some_0.table() == Some(child)
            ==> path_at(table, head + seq!['.'] + rest) == path_at(child, rest),
        table.item_at(head) is None ==> path_at(table, head + seq!['.'] + rest) is None,
        table.item_at(head) is Some && table.item_at(head)->Some_0.table() is None ==> path_at(
            table,
            head + seq!['.'] + rest,
        ) is None,
{
    lemma_first_dot(head, rest);
}

/// A removal goes down one table at each dot, and takes nothing away but what
/// the last name of the path names.
pub proof fn removal_goes_down_at_each_dot(
    table: TomlTable,
    head: Seq<char>,
    rest: Seq<char>,
    child: TomlTable,
)
    requires
        !head.contains('.'),
    ensures
        removed(table, head) == table.without(head),
        table.item_at(head) == Some(TomlItem::Table(child)) ==> removed(
            table,
            head + seq!['.'] + rest,
        ).item_at(head) == Some(TomlItem::Table(removed(child, rest))),
        table.item_at(head) is None ==> removed(table, head + seq!['.'] + rest) == table,
        table.item_at(head) is Some && table.item_at(head)->Some_0.table() is None ==> removed(
            table,
            head + seq!['.'] + rest,
        ) == table,
{
    lemma_first_dot(head, rest);
    if table.item_at(head) == Some(TomlItem::Table(child)) {
        lemma_entry_from(table.entries, head, 0);
        let item = TomlItem::Table(removed(child, rest));
        let after = table.with_item(head, item);
        lemma_with_item(table, head, item, head);
        lemma_entry_from(after.entries, head, 0);
    }
}

/// All removals are applied, one after the other, to what the config was merged
/// into.
pub proof fn removals_come_after_the_merge(
    existing: TomlTable,
    serialized: TomlTable,
    removals: Seq<Seq<char>>,
    last: Seq<char>,
    aliases: Seq<(Seq<char>, Seq<Seq<char>>)>,
)
    ensures
        saved(existing, serialized, Seq::empty(), aliases) == merged_table(
            existing,
            serialized,
            aliases,
        ),
        saved(existing, serialized, removals.push(last), aliases) == removed(
            saved(existing, serialized, removals, aliases),
            last,
        ),
{
    let table = merged_table(existing, serialized, aliases);
    lemma_removed_all_front(table, removals, last, removals.len() as int);
}

proof fn lemma_removed_all_front(
    table: TomlTable,
    paths: Seq<Seq<char>>,
    last: Seq<char>,
    n: int,
)
    requires
        n <= paths.len(),
    ensures
        removed_all(table, paths.push(last), n) == removed_all(table, paths, n),
    decreases n,
{
    if n > 0 {
        lemma_removed_all_front(table, paths, last, n - 1);
        assert(paths.push(last)[n - 1] == paths[n - 1]);
    }
}

/// The other spellings of a key are those that are listed for it.
pub proof fn spellings_are_those_of_the_key(
    aliases: Seq<(Seq<char>, Seq<Seq<char>>)>,
    name: Seq<char>,
    i: int,
)
    ensures
        0 <= i < aliases.len() && aliases[i].0 == name && (forall|k: int|
            0 <= k < i ==> (#[trigger] aliases[k]).0 != name) ==> spellings(aliases, name)
            == aliases[i].1,
        (forall|k: int| 0 <= k < aliases.len() ==> (#[trigger] aliases[k]).0 != name) ==> spellings(
            aliases,
            name,
        ).len() == 0,
{
    model::lemma_index_from(aliases, name, 0);
}

} // verus!
