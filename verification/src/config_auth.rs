//! Which credentials of other programs the user trusts.
//!
//! A trust decision is an entry of a list in the config: the id of a source, or
//! the id with the file that the credentials lie in. Ids and files are compared
//! without regard to ASCII case.

use crate::config_file;
use crate::config_file::{AuthView, Config, SettingsView};
use crate::model;
use crate::order;
use crate::order::Ranked;
use crate::removals;
use crate::removals::Removals;
use crate::text;
use crate::toml_merge;
use crate::toml_tree;
use crate::toml_tree::TomlTable;
use vstd::prelude::*;

verus! {

/// The form in which the id of a source is kept.
pub open spec fn source_id_of(raw: Seq<char>) -> Seq<char> {
    text::lowered(text::trimmed(raw))
}

/// Whether an entry of the list is the wanted one.
pub open spec fn is_entry(value: Seq<char>, entry: Seq<char>) -> bool {
    text::lowered(text::trimmed(value)) == text::lowered(entry)
}

/// Whether a list has an entry.
pub open spec fn trusted(list: Seq<Seq<char>>, entry: Seq<char>) -> bool {
    exists|i: int| 0 <= i < list.len() && is_entry(#[trigger] list[i], entry)
}

/// The entries of a list but one.
pub open spec fn distrusted(list: Seq<Seq<char>>, entry: Seq<char>) -> Seq<Seq<char>> {
    list.filter(|value: Seq<char>| !is_entry(value, entry))
}

/// Each text comes before the next.
pub open spec fn ascending(list: Seq<Seq<char>>) -> bool {
    forall|i: int, j: int|
        0 <= i < j < list.len() ==> text::before(#[trigger] list[i], #[trigger] list[j])
}

/// Whether `after` is a list with one more entry: in order, and each once.
pub open spec fn extended(before: Seq<Seq<char>>, after: Seq<Seq<char>>, entry: Seq<char>) -> bool {
    &&& ascending(after)
    &&& forall|value: Seq<char>|
        #[trigger] after.contains(value) <==> before.contains(value) || value == entry
}

fn matches_entry(value: &str, entry: &str) -> (r: bool)
    ensures
        r == is_entry(value@, entry@),
{
    let a = text::to_lower(text::trim(value));
    let b = text::to_lower(entry);
    text::same(a.as_str(), b.as_str())
}

fn is_trusted(list: &Vec<String>, entry: &str) -> (r: bool)
    ensures
        r == trusted(model::seq_view(list@), entry@),
{
    let ghost all = model::seq_view(list@);
    let mut i: usize = 0;
    while i < list.len()
        invariant
            i <= list@.len(),
            all == model::seq_view(list@),
            forall|k: int| 0 <= k < i ==> !is_entry(#[trigger] all[k], entry@),
        decreases list.len() - i,
    {
        assert(all[i as int] == list@[i as int]@);
        if matches_entry(list[i].as_str(), entry) {
            assert(is_entry(all[i as int], entry@));
            return true;
        }
        i += 1;
    }
    false
}

proof fn lemma_one_more(all: Seq<Seq<char>>, i: int)
    requires
        0 <= i < all.len(),
    ensures
        forall|x: Seq<char>|
            #[trigger] all.take(i + 1).contains(x) <==> all.take(i).contains(x) || x == all[i],
{
    let longer = all.take(i + 1);
    let shorter = all.take(i);
    assert(longer =~= shorter.push(all[i]));
    assert forall|x: Seq<char>| #[trigger] longer.contains(x) <==> shorter.contains(x) || x
        == all[i] by {
        if shorter.contains(x) {
            let k = choose|k: int| 0 <= k < shorter.len() && shorter[k] == x;
            assert(longer[k] == x);
        }
        if x == all[i] {
            assert(longer[i] == x);
        }
        if longer.contains(x) {
            let k = choose|k: int| 0 <= k < longer.len() && longer[k] == x;
            if k < i {
                assert(shorter[k] == x);
            }
        }
    }
}

/// The list with one more entry, sorted and without repetitions.
fn extend(list: &Vec<String>, entry: &str) -> (r: Vec<String>)
    ensures
        extended(model::seq_view(list@), model::seq_view(r@), entry@),
{
    broadcast use vstd::seq_lib::group_to_multiset_ensures;

    let ghost before = model::seq_view(list@);
    let mut longer = model::copy_texts(list);
    longer.push(text::owned(entry));
    let ghost unsorted = model::seq_view(longer@);
    assert(unsorted =~= before.push(entry@));
    let sorted = order::sorted(longer);
    let ghost all = model::seq_view(sorted@);
    proof {
        assert forall|value: Seq<char>| #[trigger] all.contains(value) <==> before.contains(value)
            || value == entry@ by {
            assert(all.contains(value) <==> all.to_multiset().contains(value));
            assert(unsorted.contains(value) <==> unsorted.to_multiset().contains(value));
            if before.contains(value) {
                let k = choose|k: int| 0 <= k < before.len() && before[k] == value;
                assert(unsorted[k] == value);
            }
            if value == entry@ {
                assert(unsorted[before.len() as int] == value);
            }
            if unsorted.contains(value) {
                let k = choose|k: int| 0 <= k < unsorted.len() && unsorted[k] == value;
                if k < before.len() {
                    assert(before[k] == value);
                }
            }
        }
    }
    let mut out: Vec<String> = Vec::new();
    let mut i: usize = 0;
    assert(model::seq_view(out@) =~= Seq::empty());
    while i < sorted.len()
        invariant
            i <= sorted@.len(),
            all == model::seq_view(sorted@),
            order::in_order::<String>(all),
            ascending(model::seq_view(out@)),
            forall|value: Seq<char>|
                #[trigger] model::seq_view(out@).contains(value) <==> all.take(i as int).contains(
                    value,
                ),
            i == 0 ==> out@.len() == 0,
            i > 0 ==> out@.len() > 0 && model::seq_view(out@).last() == all[i - 1],
        decreases sorted.len() - i,
    {
        let ghost kept = model::seq_view(out@);
        let ghost value = all[i as int];
        assert(value == sorted@[i as int]@);
        proof {
            lemma_one_more(all, i as int);
        }
        let n: usize = out.len();
        let repeated = if n > 0 {
            assert(kept.last() == out@[n - 1]@);
            text::same(out[n - 1].as_str(), sorted[i].as_str())
        } else {
            false
        };
        if !repeated {
            out.push(sorted[i].clone());
            proof {
                let after = model::seq_view(out@);
                assert(after =~= kept.push(value));
                assert forall|a: int, b: int| 0 <= a < b < after.len() implies text::before(
                    #[trigger] after[a],
                    #[trigger] after[b],
                ) by {
                    if b == kept.len() {
                        let last = kept.last();
                        assert(last == all[i - 1]);
                        assert(!String::precedes(all[i as int], all[i - 1]));
                        text::lemma_before_total(last, value);
                        if a < kept.len() - 1 {
                            assert(text::before(kept[a], kept[kept.len() - 1]));
                            text::lemma_before_transitive(kept[a], last, value);
                        }
                    } else {
                        assert(after[a] == kept[a]);
                        assert(after[b] == kept[b]);
                    }
                }
                assert forall|x: Seq<char>| #[trigger] after.contains(x) <==> all.take(
                    i + 1,
                ).contains(x) by {
                    assert(kept.contains(x) <==> all.take(i as int).contains(x));
                    if kept.contains(x) {
                        let k = choose|k: int| 0 <= k < kept.len() && kept[k] == x;
                        assert(after[k] == x);
                    }
                    if x == value {
                        assert(after[kept.len() as int] == x);
                    }
                    if after.contains(x) {
                        let k = choose|k: int| 0 <= k < after.len() && after[k] == x;
                        if k < kept.len() {
                            assert(kept[k] == x);
                        }
                    }
                }
            }
        } else {
            proof {
                assert(kept.contains(value)) by {
                    assert(kept[kept.len() - 1] == value);
                }
                assert forall|x: Seq<char>| #[trigger] kept.contains(x) <==> all.take(
                    i + 1,
                ).contains(x) by {
                    assert(kept.contains(x) <==> all.take(i as int).contains(x));
                }
            }
        }
        i += 1;
    }
    assert(all.take(i as int) =~= all);
    out
}

/// The list without an entry.
fn remove_entry(list: &Vec<String>, entry: &str) -> (r: Vec<String>)
    ensures
        model::seq_view(r@) == distrusted(model::seq_view(list@), entry@),
{
    let ghost all = model::seq_view(list@);
    let ghost keep = |value: Seq<char>| !is_entry(value, entry@);
    reveal(Seq::filter);
    let mut out: Vec<String> = Vec::new();
    let mut i: usize = 0;
    assert(all.take(0) =~= Seq::empty());
    assert(model::seq_view(out@) =~= Seq::empty());
    while i < list.len()
        invariant
            i <= list@.len(),
            all == model::seq_view(list@),
            keep == (|value: Seq<char>| !is_entry(value, entry@)),
            model::seq_view(out@) == all.take(i as int).filter(keep),
        decreases list.len() - i,
    {
        let ghost before = model::seq_view(out@);
        assert(all.take(i + 1).drop_last() =~= all.take(i as int));
        assert(all.take(i + 1).last() == all[i as int]);
        assert(all[i as int] == list@[i as int]@);
        reveal(Seq::filter);
        if !matches_entry(list[i].as_str(), entry) {
            out.push(list[i].clone());
            assert(model::seq_view(out@) =~= before.push(all[i as int]));
        }
        i += 1;
    }
    assert(all.take(i as int) =~= all);
    out
}

/// The entry of a source together with a file, whose canonical name was found
/// or not.
pub open spec fn path_entry(source_id: Seq<char>, canonical: Result<Seq<char>, Seq<char>>) -> Result<
    Seq<char>,
    Seq<char>,
> {
    let id = source_id_of(source_id);
    if id.len() == 0 {
        Err("External auth source id cannot be empty"@)
    } else {
        match canonical {
            Ok(file) => Ok(id + "|"@ + text::lowered(file)),
            Err(e) => Err(e),
        }
    }
}

/// The view of a text or an error.
pub open spec fn text_outcome(r: Result<String, String>) -> Result<Seq<char>, Seq<char>> {
    match r {
        Ok(s) => Ok(s@),
        Err(e) => Err(e@),
    }
}

fn is_blank(id: &str) -> (r: bool)
    ensures
        r == (id@.len() == 0),
{
    let letters = text::chars_of(id);
    letters.len() == 0
}

/// What allowing an entry does to a list: nothing where it is allowed already.
pub open spec fn allowed_in(
    before: Seq<Seq<char>>,
    after: Option<Seq<Seq<char>>>,
    entry: Seq<char>,
) -> bool {
    if trusted(before, entry) {
        after is None
    } else {
        after is Some && extended(before, after->Some_0, entry)
    }
}

fn allow_in(list: &Vec<String>, entry: &str) -> (r: Option<Vec<String>>)
    ensures
        allowed_in(
            model::seq_view(list@),
            match r {
                Some(list) => Some(model::seq_view(list@)),
                None => None,
            },
            entry@,
        ),
{
    if is_trusted(list, entry) {
        None
    } else {
        Some(extend(list, entry))
    }
}

/// The settings with other trusted sources.
pub open spec fn with_sources(settings: SettingsView, list: Seq<Seq<char>>) -> SettingsView {
    SettingsView {
        auth: AuthView { trusted_external_sources: list, ..settings.auth },
        ..settings
    }
}

/// The settings with other trusted files.
pub open spec fn with_paths(settings: SettingsView, list: Seq<Seq<char>>) -> SettingsView {
    SettingsView {
        auth: AuthView { trusted_external_source_paths: list, ..settings.auth },
        ..settings
    }
}

impl Config {
    /// The entry under which a source with a file is trusted.
    pub fn trusted_external_auth_path_entry(
        source_id: &str,
        canonical: &Result<String, String>,
    ) -> (r: Result<String, String>)
        ensures
            text_outcome(r) == path_entry(source_id@, text_outcome(*canonical)),
    {
        let id = text::to_lower(text::trim(source_id));
        if is_blank(id.as_str()) {
            return Err(text::owned("External auth source id cannot be empty"));
        }
        match canonical {
            Ok(file) => {
                let lower = text::to_lower(file.as_str());
                Ok(text::join3(id.as_str(), "|", lower.as_str()))
            },
            Err(e) => Err(e.clone()),
        }
    }

    /// Whether a source is trusted.
    pub fn external_auth_source_allowed(&self, source_id: &str) -> (r: bool)
        ensures
            r == (source_id_of(source_id@).len() > 0 && trusted(
                self@.auth.trusted_external_sources,
                source_id_of(source_id@),
            )),
    {
        let id = text::to_lower(text::trim(source_id));
        !is_blank(id.as_str()) && is_trusted(&self.auth.trusted_external_sources, id.as_str())
    }

    /// Whether a source is trusted with a file.
    pub fn external_auth_source_allowed_for_path(
        &self,
        source_id: &str,
        canonical: &Result<String, String>,
    ) -> (r: bool)
        ensures
            r == match path_entry(source_id@, text_outcome(*canonical)) {
                Ok(entry) => trusted(self@.auth.trusted_external_source_paths, entry),
                Err(_) => false,
            },
    {
        match Config::trusted_external_auth_path_entry(source_id, canonical) {
            Ok(entry) => is_trusted(&self.auth.trusted_external_source_paths, entry.as_str()),
            Err(_) => false,
        }
    }

    /// Whether a source is trusted with a file by the kept copy of the config,
    /// or by a fresh one where the copy does not know of it.
    pub fn external_auth_source_allowed_for_path_cached(
        cached: &Config,
        fresh: &Config,
        source_id: &str,
        canonical: &Result<String, String>,
    ) -> (r: bool)
        ensures
            r == match path_entry(source_id@, text_outcome(*canonical)) {
                Ok(entry) => trusted(cached@.auth.trusted_external_source_paths, entry) || trusted(
                    fresh@.auth.trusted_external_source_paths,
                    entry,
                ),
                Err(_) => false,
            },
    {
        cached.external_auth_source_allowed_for_path(source_id, canonical)
            || fresh.external_auth_source_allowed_for_path(source_id, canonical)
    }

    /// Trust a source. The config to save comes back, or nothing where the
    /// source is trusted already.
    pub fn allow_external_auth_source(loaded: Result<Config, String>, source_id: &str) -> (r: Result<
        Option<Config>,
        String,
    >)
        ensures
            ({
                let id = source_id_of(source_id@);
                match r {
                    Err(e) => if id.len() == 0 {
                        e@ == "External auth source id cannot be empty"@
                    } else {
                        config_file::outcome(loaded) == Err::<SettingsView, Seq<char>>(e@)
                    },
                    Ok(saved) => {
                        &&& id.len() > 0
                        &&& loaded is Ok
                        &&& allowed_in(
                            loaded->Ok_0@.auth.trusted_external_sources,
                            match saved {
                                Some(c) => Some(c@.auth.trusted_external_sources),
                                None => None,
                            },
                            id,
                        )
                        &&& saved is Some ==> saved->Some_0@ == with_sources(
                            loaded->Ok_0@,
                            saved->Some_0@.auth.trusted_external_sources,
                        )
                    },
                }
            }),
    {
        let id = text::to_lower(text::trim(source_id));
        if is_blank(id.as_str()) {
            return Err(text::owned("External auth source id cannot be empty"));
        }
        let mut cfg = match loaded {
            Ok(cfg) => cfg,
            Err(e) => {
                return Err(e);
            },
        };
        match allow_in(&cfg.auth.trusted_external_sources, id.as_str()) {
            Some(list) => {
                cfg.auth.trusted_external_sources = list;
                Ok(Some(cfg))
            },
            None => Ok(None),
        }
    }

    /// Trust a source with a file. The config to save comes back, or nothing
    /// where it is trusted already.
    pub fn allow_external_auth_source_for_path(
        loaded: Result<Config, String>,
        source_id: &str,
        canonical: &Result<String, String>,
    ) -> (r: Result<Option<Config>, String>)
        ensures
            match path_entry(source_id@, text_outcome(*canonical)) {
                Err(e) => r is Err && r->Err_0@ == e,
                Ok(entry) => match r {
                    Err(e) => config_file::outcome(loaded) == Err::<SettingsView, Seq<char>>(e@),
                    Ok(saved) => {
                        &&& loaded is Ok
                        &&& allowed_in(
                            loaded->Ok_0@.auth.trusted_external_source_paths,
                            match saved {
                                Some(c) => Some(c@.auth.trusted_external_source_paths),
                                None => None,
                            },
                            entry,
                        )
                        &&& saved is Some ==> saved->Some_0@ == with_paths(
                            loaded->Ok_0@,
                            saved->Some_0@.auth.trusted_external_source_paths,
                        )
                    },
                },
            },
    {
        let entry = match Config::trusted_external_auth_path_entry(source_id, canonical) {
            Ok(entry) => entry,
            Err(e) => {
                return Err(e);
            },
        };
        let mut cfg = match loaded {
            Ok(cfg) => cfg,
            Err(e) => {
                return Err(e);
            },
        };
        match allow_in(&cfg.auth.trusted_external_source_paths, entry.as_str()) {
            Some(list) => {
                cfg.auth.trusted_external_source_paths = list;
                Ok(Some(cfg))
            },
            None => Ok(None),
        }
    }

    /// Stop trusting a source with a file. The config to save comes back, or
    /// nothing where it was not trusted. An empty list is left out of the
    /// serialization, so that revoking the last file is declared.
    pub fn revoke_external_auth_source_for_path(
        loaded: Result<Config, String>,
        pending: &mut Removals,
        path: &Option<String>,
        source_id: &str,
        canonical: &Result<String, String>,
    ) -> (r: Result<Option<Config>, String>)
        ensures
            match path_entry(source_id@, text_outcome(*canonical)) {
                Err(e) => r is Err && r->Err_0@ == e && final(pending)@ == old(pending)@,
                Ok(entry) => match config_file::outcome(loaded) {
                    Err(e) => r is Err && r->Err_0@ == e && final(pending)@ == old(pending)@,
                    Ok(settings) => {
                        let before = settings.auth.trusted_external_source_paths;
                        let after = distrusted(before, entry);
                        &&& r is Ok
                        &&& model::opt_view(r->Ok_0) == if after.len() != before.len() {
                            Some(with_paths(settings, after))
                        } else {
                            None
                        }
                        &&& final(pending)@ == if after.len() != before.len() && after.len() == 0 {
                            removals::declared(
                                old(pending)@,
                                model::opt_view(*path),
                                "auth.trusted_external_source_paths"@,
                            )
                        } else {
                            old(pending)@
                        }
                    },
                },
            },
    {
        let entry = match Config::trusted_external_auth_path_entry(source_id, canonical) {
            Ok(entry) => entry,
            Err(e) => {
                return Err(e);
            },
        };
        let mut cfg = match loaded {
            Ok(cfg) => cfg,
            Err(e) => {
                return Err(e);
            },
        };
        let ghost settings = cfg@;
        let rest = remove_entry(&cfg.auth.trusted_external_source_paths, entry.as_str());
        if rest.len() == cfg.auth.trusted_external_source_paths.len() {
            return Ok(None);
        }
        if rest.len() == 0 {
            pending.declare(path, "auth.trusted_external_source_paths");
        }
        cfg.auth.trusted_external_source_paths = rest;
        assert(cfg@ =~= with_paths(
            settings,
            distrusted(settings.auth.trusted_external_source_paths, entry@),
        ));
        Ok(Some(cfg))
    }

    /// Stop trusting a source. The config to save comes back, or nothing where
    /// there is nothing to revoke. An empty list is left out of the
    /// serialization, so that revoking the last source is declared.
    pub fn revoke_external_auth_source(
        loaded: Result<Config, String>,
        pending: &mut Removals,
        path: &Option<String>,
        source_id: &str,
    ) -> (r: Result<Option<Config>, String>)
        ensures
            ({
                let id = source_id_of(source_id@);
                if id.len() == 0 {
                    r is Ok && r->Ok_0 is None && final(pending)@ == old(pending)@
                } else {
                    match config_file::outcome(loaded) {
                        Err(e) => r is Err && r->Err_0@ == e && final(pending)@ == old(pending)@,
                        Ok(settings) => {
                            let before = settings.auth.trusted_external_sources;
                            let after = distrusted(before, id);
                            &&& r is Ok
                            &&& model::opt_view(r->Ok_0) == if after.len() != before.len() {
                                Some(with_sources(settings, after))
                            } else {
                                None
                            }
                            &&& final(pending)@ == if after.len() != before.len() && after.len()
                                == 0 {
                                removals::declared(
                                    old(pending)@,
                                    model::opt_view(*path),
                                    "auth.trusted_external_sources"@,
                                )
                            } else {
                                old(pending)@
                            }
                        },
                    }
                }
            }),
    {
        let id = text::to_lower(text::trim(source_id));
        if is_blank(id.as_str()) {
            return Ok(None);
        }
        let mut cfg = match loaded {
            Ok(cfg) => cfg,
            Err(e) => {
                return Err(e);
            },
        };
        let ghost settings = cfg@;
        let rest = remove_entry(&cfg.auth.trusted_external_sources, id.as_str());
        if rest.len() == cfg.auth.trusted_external_sources.len() {
            return Ok(None);
        }
        if rest.len() == 0 {
            pending.declare(path, "auth.trusted_external_sources");
        }
        cfg.auth.trusted_external_sources = rest;
        assert(cfg@ =~= with_sources(
            settings,
            distrusted(settings.auth.trusted_external_sources, id@),
        ));
        Ok(Some(cfg))
    }
}

/// What is allowed is trusted from then on, and what was trusted stays so.
pub proof fn allowed_entry_is_trusted(
    before: Seq<Seq<char>>,
    after: Seq<Seq<char>>,
    entry: Seq<char>,
    other: Seq<char>,
)
    requires
        text::trimmed(entry) == entry,
        extended(before, after, entry),
    ensures
        trusted(after, entry),
        trusted(before, other) ==> trusted(after, other),
{
    assert(after.contains(entry));
    let k = choose|k: int| 0 <= k < after.len() && after[k] == entry;
    assert(is_entry(after[k], entry));
    if trusted(before, other) {
        let i = choose|i: int| 0 <= i < before.len() && is_entry(#[trigger] before[i], other);
        assert(before.contains(before[i]));
        assert(after.contains(before[i]));
        let j = choose|j: int| 0 <= j < after.len() && after[j] == before[i];
        assert(is_entry(after[j], other));
    }
}

/// The id of a source is an entry that has nothing to trim, whatever was around
/// it: a source that is allowed is trusted under every spelling of its id.
pub proof fn source_id_has_nothing_to_trim(raw: Seq<char>, other: Seq<char>)
    ensures
        text::trimmed(source_id_of(raw)) == source_id_of(raw),
        source_id_of(raw) == source_id_of(other) ==> is_entry(
            source_id_of(raw),
            source_id_of(other),
        ),
{
    text::lemma_trimmed_stays(raw);
}

/// Allowing twice is allowing once: the second time nothing is saved.
pub proof fn allowing_is_idempotent(
    before: Seq<Seq<char>>,
    after: Seq<Seq<char>>,
    again: Option<Seq<Seq<char>>>,
    entry: Seq<char>,
)
    requires
        text::trimmed(entry) == entry,
        extended(before, after, entry),
        allowed_in(after, again, entry),
    ensures
        again is None,
{
    allowed_entry_is_trusted(before, after, entry, entry);
}

/// What is revoked is not trusted any more, and nothing else changes.
pub proof fn revoked_entry_is_not_trusted(
    list: Seq<Seq<char>>,
    entry: Seq<char>,
    other: Seq<char>,
)
    ensures
        !trusted(distrusted(list, entry), entry),
        text::lowered(other) != text::lowered(entry) ==> trusted(distrusted(list, entry), other)
            == trusted(list, other),
{
    broadcast use vstd::seq_lib::group_filter_ensures;

    let keep = |value: Seq<char>| !is_entry(value, entry);
    let rest = distrusted(list, entry);
    assert forall|i: int| 0 <= i < rest.len() implies !is_entry(#[trigger] rest[i], entry) by {
        assert(rest.contains(rest[i]));
        assert(keep(rest[i]));
    }
    if text::lowered(other) != text::lowered(entry) {
        if trusted(list, other) {
            let i = choose|i: int| 0 <= i < list.len() && is_entry(#[trigger] list[i], other);
            assert(list.contains(list[i]));
            assert(keep(list[i]));
            assert(rest.contains(list[i]));
            let j = choose|j: int| 0 <= j < rest.len() && rest[j] == list[i];
            assert(is_entry(rest[j], other));
        }
        if trusted(rest, other) {
            let j = choose|j: int| 0 <= j < rest.len() && is_entry(#[trigger] rest[j], other);
            assert(rest.contains(rest[j]));
            list.lemma_filter_contains_rev(keep, rest[j]);
            let i = choose|i: int| 0 <= i < list.len() && list[i] == rest[j];
            assert(is_entry(list[i], other));
        }
    }
}

/// A list whose last entry was revoked is declared, and after the save it is not
/// in the file: what was trusted does not come back.
pub proof fn revoked_list_is_gone_after_the_save(
    pending: Seq<(Seq<char>, Seq<Seq<char>>)>,
    file: Seq<char>,
    list: Seq<char>,
    existing: TomlTable,
    serialized: TomlTable,
    aliases: Seq<(Seq<char>, Seq<Seq<char>>)>,
)
    requires
        toml_tree::keys_once(existing.entries),
        toml_tree::keys_once(serialized.entries),
    ensures
        ({
            let declared = removals::declared(pending, Some(file), list);
            let paths = removals::pending_for(declared, Some(file));
            toml_merge::path_at(
                toml_merge::saved(existing, serialized, paths, aliases),
                list,
            ) is None
        }),
{
    removals::declared_removal_is_recorded(pending, file, list);
    let paths = removals::pending_for(removals::declared(pending, Some(file), list), Some(file));
    let k = choose|k: int| 0 <= k < paths.len() && paths[k] == list;
    toml_merge::declared_path_is_gone_after_the_save(existing, serialized, paths, aliases, k);
}

/// A list trusts an entry when one of its texts is that entry, whatever its
/// case and the white space round it: any of them, wherever it stands.
pub proof fn any_listed_text_is_trusted(
    list: Seq<Seq<char>>,
    i: int,
    entry: Seq<char>,
    left: Seq<char>,
    right: Seq<char>,
)
    requires
        0 <= i < list.len(),
        entry.len() > 0,
        !text::is_white_space(entry[0]),
        !text::is_white_space(entry.last()),
        forall|k: int| 0 <= k < left.len() ==> text::is_white_space(#[trigger] left[k]),
        forall|k: int| 0 <= k < right.len() ==> text::is_white_space(#[trigger] right[k]),
    ensures
        list[i] == left + entry + right ==> trusted(list, entry),
        list[i] == left + text::lowered(entry) + right ==> trusted(list, entry),
{
    text::trimming_takes_the_margins_away(left, entry, right);
    let low = text::lowered(entry);
    text::case_changes_letters_only(entry, 0);
    text::case_changes_letters_only(entry, entry.len() - 1);
    text::trimming_takes_the_margins_away(left, low, right);
    assert(text::lowered(low) =~= low) by {
        assert forall|k: int| 0 <= k < low.len() implies text::lowered(low)[k] == low[k] by {
            text::case_changes_letters_only(entry, k);
        }
    }
    if list[i] == left + entry + right || list[i] == left + low + right {
        assert(is_entry(list[i], entry));
    }
}

/// An entry that no text of the list is, is not trusted.
pub proof fn unlisted_entry_is_not_trusted(list: Seq<Seq<char>>, entry: Seq<char>)
    requires
        forall|i: int|
            0 <= i < list.len() ==> text::lowered(text::trimmed(#[trigger] list[i]))
                != text::lowered(entry),
    ensures
        !trusted(list, entry),
{
}

/// The id of a source is its name without the white space round it, in small
/// letters.
pub proof fn source_id_is_in_small_letters(raw: Seq<char>, i: int)
    requires
        0 <= i < source_id_of(raw).len(),
    ensures
        source_id_of(raw).len() == text::trimmed(raw).len(),
        !('A' <= source_id_of(raw)[i] && source_id_of(raw)[i] <= 'Z'),
        !('A' <= text::trimmed(raw)[i] && text::trimmed(raw)[i] <= 'Z') ==> source_id_of(raw)[i]
            == text::trimmed(raw)[i],
{
    text::case_changes_letters_only(text::trimmed(raw), i);
}

/// The entry of a file is the id of its source and the file's path, in small
/// letters, with a bar between them. Without an id there is none, and a path that
/// cannot be told is the error that there is.
pub proof fn path_entry_is_the_id_and_the_path(
    source_id: Seq<char>,
    file: Seq<char>,
    error: Seq<char>,
)
    ensures
        text::trimmed(source_id).len() == 0 ==> path_entry(source_id, Ok(file)) == Err::<
            Seq<char>,
            Seq<char>,
        >("External auth source id cannot be empty"@) && path_entry(source_id, Err(error))
            == path_entry(source_id, Ok(file)),
        text::trimmed(source_id).len() > 0 ==> {
            let id = text::lowered(text::trimmed(source_id));
            let entry = path_entry(source_id, Ok(file))->Ok_0;
            &&& path_entry(source_id, Ok(file)) is Ok
            &&& text::begins(entry, id)
            &&& text::ends(entry, text::lowered(file))
            &&& entry.len() == id.len() + 1 + file.len()
            &&& entry[id.len() as int] == '|'
            &&& path_entry(source_id, Err(error)) == Err::<Seq<char>, Seq<char>>(error)
        },
{
    reveal_strlit("|");
    let id = text::lowered(text::trimmed(source_id));
    let low = text::lowered(file);
    assert(id.len() == text::trimmed(source_id).len());
    text::parts_are_found_again(id + "|"@, low);
    text::parts_are_found_again(id, "|"@ + low);
    assert(id + "|"@ + low =~= id + ("|"@ + low));
}

/// A list that an entry was added to has the entry and the texts that it had, in
/// ascending order and each once, and nothing else.
pub proof fn allowed_list_has_one_entry_more(
    before: Seq<Seq<char>>,
    after: Option<Seq<Seq<char>>>,
    entry: Seq<char>,
    value: Seq<char>,
    i: int,
    j: int,
)
    requires
        allowed_in(before, after, entry),
        !trusted(before, entry),
    ensures
        after is Some,
        after->Some_0.contains(entry),
        before.contains(value) ==> after->Some_0.contains(value),
        after->Some_0.contains(value) && value != entry ==> before.contains(value),
        0 <= i < j < after->Some_0.len() ==> text::before(after->Some_0[i], after->Some_0[j])
            && after->Some_0[i] != after->Some_0[j],
{
    let list = after->Some_0;
    assert(list.contains(entry));
    if 0 <= i < j < list.len() {
        assert(text::before(list[i], list[j]));
        text::lemma_before_irreflexive(list[i]);
    }
}

/// A list that an entry was taken from has its other texts, in their order.
pub proof fn revoked_list_keeps_the_others_in_order(
    front: Seq<Seq<char>>,
    last: Seq<char>,
    entry: Seq<char>,
)
    ensures
        text::lowered(text::trimmed(last)) == text::lowered(entry) ==> distrusted(
            front.push(last),
            entry,
        ) == distrusted(front, entry),
        text::lowered(text::trimmed(last)) != text::lowered(entry) ==> distrusted(
            front.push(last),
            entry,
        ) == distrusted(front, entry).push(last),
        distrusted(Seq::empty(), entry).len() == 0,
{
    reveal(Seq::filter);
    assert(front.push(last).drop_last() =~= front);
}

/// A list of trusted sources, or of trusted files, replaces that list and
/// nothing else in the settings.
pub proof fn trust_lists_are_set_alone(settings: SettingsView, list: Seq<Seq<char>>)
    ensures
        with_sources(settings, list).auth.trusted_external_sources == list,
        with_sources(settings, list).auth.trusted_external_source_paths
            == settings.auth.trusted_external_source_paths,
        with_paths(settings, list).auth.trusted_external_source_paths == list,
        with_paths(settings, list).auth.trusted_external_sources
            == settings.auth.trusted_external_sources,
        with_sources(settings, list).provider == settings.provider && with_paths(
            settings,
            list,
        ).provider == settings.provider,
        with_sources(settings, list).display == settings.display && with_paths(
            settings,
            list,
        ).display == settings.display,
        with_sources(settings, list).launch_hotkeys == settings.launch_hotkeys && with_paths(
            settings,
            list,
        ).launch_hotkeys == settings.launch_hotkeys,
        with_sources(settings, list).sponsors == settings.sponsors && with_paths(
            settings,
            list,
        ).sponsors == settings.sponsors,
{
}

} // verus!
