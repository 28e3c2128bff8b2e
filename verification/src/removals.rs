//! Config paths that are declared as removals.
//!
//! A serialized config can express a removal only by leaving a key out, and in
//! a file "deliberately emptied" looks like "written by a newer build". So every
//! change that deletes by omission says so, and the next save applies exactly
//! those deletions. Declarations are kept per config file: one that is recorded
//! for one file never touches another.

use crate::model;
use crate::text;
use vstd::prelude::*;

verus! {

/// Dotted paths, in the order in which they were declared.
#[derive(Debug)]
pub struct DottedPaths {
    pub paths: Vec<String>,
}

impl View for DottedPaths {
    type V = Seq<Seq<char>>;

    open spec fn view(&self) -> Seq<Seq<char>> {
        model::seq_view(self.paths@)
    }
}

/// The removals that wait for a save, by the config file they belong to.
#[derive(Debug)]
pub struct Removals {
    pub entries: Vec<(String, DottedPaths)>,
}

impl View for Removals {
    type V = Seq<(Seq<char>, Seq<Seq<char>>)>;

    open spec fn view(&self) -> Seq<(Seq<char>, Seq<Seq<char>>)> {
        model::keyed_view(self.entries@)
    }
}

/// The removals that wait for the save of a file.
pub open spec fn pending_for(
    pending: Seq<(Seq<char>, Seq<Seq<char>>)>,
    path: Option<Seq<char>>,
) -> Seq<Seq<char>> {
    match path {
        Some(path) => match model::get(pending, path) {
            Some(list) => list,
            None => Seq::empty(),
        },
        None => Seq::empty(),
    }
}

/// The removals after one more was declared for a file; one that is declared
/// already stays once, and without a file there is nothing to declare for.
pub open spec fn declared(
    pending: Seq<(Seq<char>, Seq<Seq<char>>)>,
    path: Option<Seq<char>>,
    dotted: Seq<char>,
) -> Seq<(Seq<char>, Seq<Seq<char>>)> {
    match path {
        Some(file) => {
            let list = pending_for(pending, path);
            if list.contains(dotted) {
                pending
            } else {
                model::put_in(pending, file, list.push(dotted))
            }
        },
        None => pending,
    }
}

/// The removals after those of a file were taken.
pub open spec fn drained(
    pending: Seq<(Seq<char>, Seq<Seq<char>>)>,
    path: Option<Seq<char>>,
) -> Seq<(Seq<char>, Seq<Seq<char>>)> {
    match path {
        Some(file) => match model::index_from(pending, file, 0) {
            Some(i) => pending.remove(i),
            None => pending,
        },
        None => pending,
    }
}

impl Removals {
    pub fn new() -> (r: Removals)
        ensures
            r@.len() == 0,
            model::distinct_keys(r@),
    {
        Removals { entries: Vec::new() }
    }

    /// Declare that `dotted` must disappear from a config file on its next save.
    pub fn declare(&mut self, path: &Option<String>, dotted: &str)
        ensures
            final(self)@ == declared(old(self)@, model::opt_view(*path), dotted@),
            model::distinct_keys(old(self)@) ==> model::distinct_keys(final(self)@),
    {
        let ghost before = self@;
        proof {
            if model::distinct_keys(before) {
                declaring_keeps_files_distinct(before, model::opt_view(*path), dotted@);
            }
        }
        let file = match path {
            Some(file) => file,
            None => {
                return;
            },
        };
        let mut list: Vec<String> = Vec::new();
        assert(model::seq_view(list@) =~= Seq::empty());
        if let Some(known) = model::find_view(&self.entries, file.as_str()) {
            if model::holds_text(&known.paths, dotted) {
                return;
            }
            list = model::copy_texts(&known.paths);
        }
        let ghost old_list = pending_for(before, model::opt_view(*path));
        assert(model::seq_view(list@) == old_list);
        list.push(text::owned(dotted));
        assert(model::seq_view(list@) =~= old_list.push(dotted@));
        model::put(&mut self.entries, file.as_str(), DottedPaths { paths: list });
    }

    /// Take the removals that were declared for a config file.
    pub fn take(&mut self, path: &Option<String>) -> (r: Vec<String>)
        ensures
            model::seq_view(r@) == pending_for(old(self)@, model::opt_view(*path)),
            final(self)@ == drained(old(self)@, model::opt_view(*path)),
            model::distinct_keys(old(self)@) ==> model::distinct_keys(final(self)@),
    {
        let ghost before = self@;
        proof {
            if model::distinct_keys(before) && path is Some {
                drained_removals_are_gone(before, path->Some_0@);
            }
        }
        if let Some(file) = path {
            proof {
                model::lemma_index_of_view(self.entries@, file@, 0);
            }
            if let Some(i) = model::position(&self.entries, file.as_str()) {
                let entry = self.entries.remove(i);
                assert(self@ =~= before.remove(i as int));
                return entry.1.paths;
            }
        }
        let none: Vec<String> = Vec::new();
        assert(model::seq_view(none@) =~= Seq::empty());
        none
    }

    /// The removals that wait for the save of a file.
    pub fn pending(&self, path: &Option<String>) -> (r: Vec<String>)
        ensures
            model::seq_view(r@) == pending_for(self@, model::opt_view(*path)),
    {
        if let Some(file) = path {
            if let Some(known) = model::find_view(&self.entries, file.as_str()) {
                return model::copy_texts(&known.paths);
            }
        }
        let none: Vec<String> = Vec::new();
        assert(model::seq_view(none@) =~= Seq::empty());
        none
    }
}

/// A removal that is declared waits for the save of its file, once.
pub proof fn declared_removal_is_recorded(
    pending: Seq<(Seq<char>, Seq<Seq<char>>)>,
    file: Seq<char>,
    dotted: Seq<char>,
)
    ensures
        pending_for(declared(pending, Some(file), dotted), Some(file)).contains(dotted),
        declared(declared(pending, Some(file), dotted), Some(file), dotted) == declared(
            pending,
            Some(file),
            dotted,
        ),
{
    let list = pending_for(pending, Some(file));
    if !list.contains(dotted) {
        model::put_then_get(pending, file, list.push(dotted), file);
        assert(list.push(dotted)[list.len() as int] == dotted);
    }
}

/// A removal that waits for the save of its file still does when another is
/// declared.
pub proof fn declared_removal_stays(
    pending: Seq<(Seq<char>, Seq<Seq<char>>)>,
    file: Seq<char>,
    one: Seq<char>,
    other: Seq<char>,
)
    requires
        pending_for(pending, Some(file)).contains(one),
    ensures
        pending_for(declared(pending, Some(file), other), Some(file)).contains(one),
{
    let list = pending_for(pending, Some(file));
    if !list.contains(other) {
        model::put_then_get(pending, file, list.push(other), file);
        let k = choose|k: int| 0 <= k < list.len() && list[k] == one;
        assert(list.push(other)[k] == one);
    }
}

/// A removal that is declared for one file changes nothing for another.
pub proof fn removals_are_scoped_to_their_file(
    pending: Seq<(Seq<char>, Seq<Seq<char>>)>,
    file: Seq<char>,
    dotted: Seq<char>,
    other: Seq<char>,
)
    requires
        other != file,
    ensures
        pending_for(declared(pending, Some(file), dotted), Some(other)) == pending_for(
            pending,
            Some(other),
        ),
        pending_for(drained(pending, Some(file)), Some(other)) == pending_for(
            pending,
            Some(other),
        ),
{
    let list = pending_for(pending, Some(file));
    model::put_then_get(pending, file, list.push(dotted), other);
    model::lemma_index_from(pending, file, 0);
    model::lemma_index_from(pending, other, 0);
    let after = drained(pending, Some(file));
    model::lemma_index_from(after, other, 0);
    if let Some(i) = model::index_from(pending, file, 0) {
        match model::index_from(pending, other, 0) {
            Some(j) => {
                let k = if j < i {
                    j
                } else {
                    j - 1
                };
                assert(after[k] == pending[j]);
                assert forall|x: int| 0 <= x < k implies (#[trigger] after[x]).0 != other by {
                    if x < i {
                        assert(after[x] == pending[x]);
                    } else {
                        assert(after[x] == pending[x + 1]);
                    }
                }
            },
            None => {
                assert forall|x: int| 0 <= x < after.len() implies (#[trigger] after[x]).0
                    != other by {
                    if x < i {
                        assert(after[x] == pending[x]);
                    } else {
                        assert(after[x] == pending[x + 1]);
                    }
                }
            },
        }
    }
}

/// A save consumes the removals of its file: they do not leak onto a later one.
pub proof fn drained_removals_are_gone(
    pending: Seq<(Seq<char>, Seq<Seq<char>>)>,
    file: Seq<char>,
)
    requires
        model::distinct_keys(pending),
    ensures
        pending_for(drained(pending, Some(file)), Some(file)).len() == 0,
        model::distinct_keys(drained(pending, Some(file))),
{
    model::lemma_index_from(pending, file, 0);
    let after = drained(pending, Some(file));
    model::lemma_index_from(after, file, 0);
    if let Some(i) = model::index_from(pending, file, 0) {
        assert forall|x: int| 0 <= x < after.len() implies (#[trigger] after[x]).0 != file by {
            if x < i {
                assert(after[x] == pending[x]);
            } else {
                assert(after[x] == pending[x + 1]);
                assert(pending[i].0 != pending[x + 1].0);
            }
        }
        assert forall|x: int, y: int| 0 <= x < y < after.len() implies (#[trigger] after[x]).0 != (
        #[trigger] after[y]).0 by {
            let a = if x < i {
                x
            } else {
                x + 1
            };
            let b = if y < i {
                y
            } else {
                y + 1
            };
            assert(after[x] == pending[a]);
            assert(after[y] == pending[b]);
        }
    }
}

/// Declaring keeps one list per file.
pub proof fn declaring_keeps_files_distinct(
    pending: Seq<(Seq<char>, Seq<Seq<char>>)>,
    path: Option<Seq<char>>,
    dotted: Seq<char>,
)
    requires
        model::distinct_keys(pending),
    ensures
        model::distinct_keys(declared(pending, path, dotted)),
{
    if let Some(file) = path {
        let after = declared(pending, path, dotted);
        model::lemma_index_from(pending, file, 0);
        assert forall|x: int, y: int| 0 <= x < y < after.len() implies (#[trigger] after[x]).0 != (
        #[trigger] after[y]).0 by {
            if y < pending.len() {
                assert(after[x].0 == pending[x].0);
                assert(after[y].0 == pending[y].0);
            } else {
                assert(after[x] == pending[x]);
            }
        }
    }
}

/// A removal is written down behind those that wait for the same file, and only
/// once. Without a file nothing is written down.
pub proof fn removals_are_listed_once_and_in_order(
    pending: Seq<(Seq<char>, Seq<Seq<char>>)>,
    file: Seq<char>,
    dotted: Seq<char>,
)
    ensures
        ({
            let list = pending_for(pending, Some(file));
            let after = pending_for(declared(pending, Some(file), dotted), Some(file));
            &&& list.contains(dotted) ==> after == list
            &&& !list.contains(dotted) ==> after == list.push(dotted)
            &&& declared(pending, None, dotted) == pending
            &&& pending_for(pending, None).len() == 0
            &&& drained(pending, None) == pending
        }),
{
    let list = pending_for(pending, Some(file));
    model::put_then_get(pending, file, list.push(dotted), file);
}

/// What waits for a file is the list that stands under it; for a file that is
/// not listed nothing waits.
pub proof fn removals_wait_under_their_file(
    pending: Seq<(Seq<char>, Seq<Seq<char>>)>,
    file: Seq<char>,
    i: int,
)
    ensures
        0 <= i < pending.len() && pending[i].0 == file && (forall|k: int|
            0 <= k < i ==> (#[trigger] pending[k]).0 != file) ==> pending_for(pending, Some(file))
            == pending[i].1,
        (forall|k: int| 0 <= k < pending.len() ==> (#[trigger] pending[k]).0 != file)
            ==> pending_for(pending, Some(file)).len() == 0,
{
    model::lemma_index_from(pending, file, 0);
}

} // verus!
