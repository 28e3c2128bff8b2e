//! The mathematical shapes that contracts share: views of optional and listed
//! values, lookups by key, and conversions that stop at the first failure.

use crate::text;
use vstd::prelude::*;

verus! {

/// The view of an optional value.
pub open spec fn opt_view<T: View>(value: Option<T>) -> Option<T::V> {
    match value {
        Some(v) => Some(v@),
        None => None,
    }
}

/// The views of the elements.
pub open spec fn seq_view<T: View>(values: Seq<T>) -> Seq<T::V> {
    values.map_values(|v: T| v@)
}

/// The entries with their keys as sequences of characters.
pub open spec fn keyed<V>(entries: Seq<(String, V)>) -> Seq<(Seq<char>, V)> {
    entries.map_values(|e: (String, V)| (e.0@, e.1))
}

/// The entries with their keys as sequences of characters and their values as
/// their views.
pub open spec fn keyed_view<T: View>(entries: Seq<(String, T)>) -> Seq<(Seq<char>, T::V)> {
    entries.map_values(|e: (String, T)| (e.0@, e.1@))
}

/// The index of the first entry from `from` on with the key, if there is one.
pub open spec fn index_from<V>(entries: Seq<(Seq<char>, V)>, key: Seq<char>, from: int) -> Option<
    int,
>
    decreases entries.len() - from,
{
    if from < 0 || from >= entries.len() {
        None
    } else if entries[from].0 == key {
        Some(from)
    } else {
        index_from(entries, key, from + 1)
    }
}

/// The value of the first entry with the key.
pub open spec fn get<V>(entries: Seq<(Seq<char>, V)>, key: Seq<char>) -> Option<V> {
    match index_from(entries, key, 0) {
        Some(i) => Some(entries[i].1),
        None => None,
    }
}

/// Whether some entry has the key.
pub open spec fn has_key<V>(entries: Seq<(Seq<char>, V)>, key: Seq<char>) -> bool {
    get(entries, key) is Some
}

/// `f` of each element with its index, in order, up to the first failure.
pub open spec fn collect<A, B, E>(values: Seq<A>, f: spec_fn(int, A) -> Result<B, E>) -> Result<
    Seq<B>,
    E,
>
    decreases values.len(),
{
    if values.len() == 0 {
        Ok(Seq::empty())
    } else {
        match collect(values.drop_last(), f) {
            Err(e) => Err(e),
            Ok(done) => match f(values.len() - 1, values.last()) {
                Err(e) => Err(e),
                Ok(b) => Ok(done.push(b)),
            },
        }
    }
}

/// One step of [`collect`].
pub proof fn lemma_collect_step<A, B, E>(
    values: Seq<A>,
    f: spec_fn(int, A) -> Result<B, E>,
    n: int,
)
    requires
        0 <= n < values.len(),
    ensures
        collect(values.take(n + 1), f) == match collect(values.take(n), f) {
            Err(e) => Err(e),
            Ok(done) => match f(n, values[n]) {
                Err(e) => Err(e),
                Ok(b) => Ok(done.push(b)),
            },
        },
{
    assert(values.take(n + 1).drop_last() =~= values.take(n));
    assert(values.take(n + 1).last() == values[n]);
}

/// A failure on a first part is the failure of the whole.
pub proof fn lemma_collect_fails<A, B, E>(
    values: Seq<A>,
    f: spec_fn(int, A) -> Result<B, E>,
    n: int,
)
    requires
        0 <= n <= values.len(),
        collect(values.take(n), f) is Err,
    ensures
        collect(values, f) == collect(values.take(n), f),
    decreases values.len() - n,
{
    if n < values.len() {
        lemma_collect_step(values, f, n);
        lemma_collect_fails(values, f, n + 1);
    } else {
        assert(values.take(n) =~= values);
    }
}

/// A conversion fails only where one of the elements does.
pub proof fn lemma_collect_all_ok<A, B, E>(values: Seq<A>, f: spec_fn(int, A) -> Result<B, E>)
    requires
        forall|i: int| 0 <= i < values.len() ==> (#[trigger] f(i, values[i])) is Ok,
    ensures
        collect(values, f) is Ok,
    decreases values.len(),
{
    if values.len() > 0 {
        let front = values.drop_last();
        assert forall|i: int| 0 <= i < front.len() implies (#[trigger] f(i, front[i])) is Ok by {
            assert(front[i] == values[i]);
        }
        lemma_collect_all_ok(front, f);
        assert(f(values.len() - 1, values[values.len() - 1]) is Ok);
    }
}

/// What a conversion without a failure gives.
pub proof fn lemma_collect_values<A, B, E>(values: Seq<A>, f: spec_fn(int, A) -> Result<B, E>)
    requires
        collect(values, f) is Ok,
    ensures
        collect(values, f)->Ok_0.len() == values.len(),
        forall|i: int|
            0 <= i < values.len() ==> #[trigger] f(i, values[i]) == Ok::<B, E>(
                collect(values, f)->Ok_0[i],
            ),
    decreases values.len(),
{
    if values.len() > 0 {
        let front = values.drop_last();
        lemma_collect_values(front, f);
        assert forall|i: int| 0 <= i < values.len() implies #[trigger] f(i, values[i]) == Ok::<
            B,
            E,
        >(collect(values, f)->Ok_0[i]) by {
            if i < values.len() - 1 {
                assert(front[i] == values[i]);
                assert(f(i, front[i]) == Ok::<B, E>(collect(front, f)->Ok_0[i]));
            }
        }
    }
}

/// The value of the first entry with the key.
pub fn find<'a, V>(entries: &'a Vec<(String, V)>, key: &str) -> (r: Option<&'a V>)
    ensures
        match r {
            Some(v) => get(keyed(entries@), key@) == Some(*v),
            None => get(keyed(entries@), key@) is None,
        },
{
    match position(entries, key) {
        Some(i) => Some(&entries[i].1),
        None => None,
    }
}

/// The index of the first entry with the key.
pub fn position<V>(entries: &Vec<(String, V)>, key: &str) -> (r: Option<usize>)
    ensures
        match r {
            Some(i) => index_from(keyed(entries@), key@, 0) == Some(i as int) && i < entries@.len(),
            None => index_from(keyed(entries@), key@, 0) is None,
        },
{
    let mut i: usize = 0;
    while i < entries.len()
        invariant
            i <= entries@.len(),
            index_from(keyed(entries@), key@, 0) == index_from(keyed(entries@), key@, i as int),
        decreases entries.len() - i,
    {
        if text::same(entries[i].0.as_str(), key) {
            return Some(i);
        }
        i += 1;
    }
    None
}

/// Keys decide which entry is found, not what the values are.
pub proof fn lemma_index_of_view<T: View>(entries: Seq<(String, T)>, key: Seq<char>, from: int)
    ensures
        index_from(keyed(entries), key, from) == index_from(keyed_view(entries), key, from),
    decreases entries.len() - from,
{
    if 0 <= from < entries.len() {
        lemma_index_of_view(entries, key, from + 1);
    }
}

/// The value of the first entry with the key, known by its view.
pub fn find_view<'a, T: View>(entries: &'a Vec<(String, T)>, key: &str) -> (r: Option<&'a T>)
    ensures
        match r {
            Some(v) => get(keyed_view(entries@), key@) == Some(v@),
            None => get(keyed_view(entries@), key@) is None,
        },
{
    proof {
        lemma_index_of_view(entries@, key@, 0);
    }
    match position(entries, key) {
        Some(i) => Some(&entries[i].1),
        None => None,
    }
}

/// An index that is found holds the key, and no earlier one does.
pub proof fn lemma_index_from<V>(entries: Seq<(Seq<char>, V)>, key: Seq<char>, from: int)
    requires
        0 <= from,
    ensures
        match index_from(entries, key, from) {
            Some(i) => from <= i < entries.len() && entries[i].0 == key && forall|j: int|
                from <= j < i ==> (#[trigger] entries[j]).0 != key,
            None => forall|j: int| from <= j < entries.len() ==> (#[trigger] entries[j]).0 != key,
        },
    decreases entries.len() - from,
{
    if from < entries.len() && entries[from].0 != key {
        lemma_index_from(entries, key, from + 1);
    }
}

/// A copy of optional text.
pub fn copy_text(value: &Option<String>) -> (r: Option<String>)
    ensures
        opt_view(r) == opt_view(*value),
{
    match value {
        Some(s) => Some(s.clone()),
        None => None,
    }
}

/// A copy of a list of texts.
pub fn copy_texts(values: &Vec<String>) -> (r: Vec<String>)
    ensures
        seq_view(r@) == seq_view(values@),
{
    let mut out: Vec<String> = Vec::new();
    let mut i: usize = 0;
    while i < values.len()
        invariant
            i <= values@.len(),
            out@.len() == i,
            forall|k: int| 0 <= k < i ==> out@[k]@ == values@[k]@,
        decreases values.len() - i,
    {
        out.push(values[i].clone());
        i += 1;
    }
    assert(seq_view(out@) =~= seq_view(values@));
    out
}

/// Whether a list of texts holds `wanted`.
pub fn holds_text(values: &Vec<String>, wanted: &str) -> (r: bool)
    ensures
        r == seq_view(values@).contains(wanted@),
{
    let mut i: usize = 0;
    while i < values.len()
        invariant
            i <= values@.len(),
            forall|k: int| 0 <= k < i ==> (#[trigger] values@[k])@ != wanted@,
        decreases values.len() - i,
    {
        if text::same(values[i].as_str(), wanted) {
            assert(seq_view(values@)[i as int] == wanted@);
            return true;
        }
        i += 1;
    }
    assert forall|k: int| 0 <= k < values@.len() implies seq_view(values@)[k] != wanted@ by {
        assert(values@[k]@ != wanted@);
    }
    false
}

/// The entries with `value` under the key: in place of the first entry that has
/// it, else at the end.
pub open spec fn put_in<V>(entries: Seq<(Seq<char>, V)>, key: Seq<char>, value: V) -> Seq<
    (Seq<char>, V),
> {
    match index_from(entries, key, 0) {
        Some(i) => entries.update(i, (key, value)),
        None => entries.push((key, value)),
    }
}

/// The entries without those that have the key.
pub open spec fn taken_from<V>(entries: Seq<(Seq<char>, V)>, key: Seq<char>) -> Seq<(Seq<char>, V)>
    decreases entries.len(),
{
    if entries.len() == 0 {
        Seq::empty()
    } else if entries.last().0 == key {
        taken_from(entries.drop_last(), key)
    } else {
        taken_from(entries.drop_last(), key).push(entries.last())
    }
}

/// No key occurs twice.
pub open spec fn distinct_keys<V>(entries: Seq<(Seq<char>, V)>) -> bool {
    forall|i: int, j: int|
        0 <= i < j < entries.len() ==> (#[trigger] entries[i]).0 != (#[trigger] entries[j]).0
}

/// What is put under a key is what is found there, and nothing else changes.
pub proof fn put_then_get<V>(
    entries: Seq<(Seq<char>, V)>,
    key: Seq<char>,
    value: V,
    other: Seq<char>,
)
    ensures
        get(put_in(entries, key, value), other) == if other == key {
            Some(value)
        } else {
            get(entries, other)
        },
{
    let after = put_in(entries, key, value);
    lemma_index_from(entries, key, 0);
    lemma_index_from(entries, other, 0);
    lemma_index_from(after, other, 0);
    match index_from(entries, key, 0) {
        Some(i) => {
            if other == key {
                assert(after[i].0 == key);
            } else {
                match index_from(entries, other, 0) {
                    Some(j) => {
                        assert(after[j] == entries[j]);
                        assert forall|k: int| 0 <= k < j implies (#[trigger] after[k]).0
                            != other by {
                            assert(entries[k].0 != other);
                        }
                    },
                    None => {
                        assert forall|k: int| 0 <= k < after.len() implies (#[trigger] after[k]).0
                            != other by {
                            assert(entries[k].0 != other);
                        }
                    },
                }
            }
        },
        None => {
            if other == key {
                assert(after[entries.len() as int].0 == key);
                assert forall|k: int| 0 <= k < entries.len() implies (#[trigger] after[k]).0
                    != key by {
                    assert(entries[k].0 != key);
                }
            } else {
                match index_from(entries, other, 0) {
                    Some(j) => {
                        assert(after[j] == entries[j]);
                        assert forall|k: int| 0 <= k < j implies (#[trigger] after[k]).0
                            != other by {
                            assert(entries[k].0 != other);
                        }
                    },
                    None => {
                        assert forall|k: int| 0 <= k < after.len() implies (#[trigger] after[k]).0
                            != other by {
                            if k < entries.len() {
                                assert(entries[k].0 != other);
                            }
                        }
                    },
                }
            }
        },
    }
}

proof fn lemma_push_get<V>(entries: Seq<(Seq<char>, V)>, entry: (Seq<char>, V), key: Seq<char>)
    ensures
        get(entries.push(entry), key) == match get(entries, key) {
            Some(v) => Some(v),
            None => if entry.0 == key {
                Some(entry.1)
            } else {
                None
            },
        },
{
    let after = entries.push(entry);
    lemma_index_from(entries, key, 0);
    lemma_index_from(after, key, 0);
    match index_from(entries, key, 0) {
        Some(j) => {
            assert(after[j] == entries[j]);
            assert forall|k: int| 0 <= k < j implies (#[trigger] after[k]).0 != key by {
                assert(entries[k].0 != key);
            }
        },
        None => {
            assert forall|k: int| 0 <= k < entries.len() implies (#[trigger] after[k]).0
                != key by {
                assert(entries[k].0 != key);
            }
            if entry.0 == key {
                assert(after[entries.len() as int].0 == key);
            }
        },
    }
}

/// What is taken away is not found any more, and nothing else changes.
pub proof fn take_then_get<V>(entries: Seq<(Seq<char>, V)>, key: Seq<char>, other: Seq<char>)
    ensures
        get(taken_from(entries, key), other) == if other == key {
            None
        } else {
            get(entries, other)
        },
    decreases entries.len(),
{
    if entries.len() > 0 {
        let front = entries.drop_last();
        take_then_get(front, key, other);
        lemma_push_get(front, entries.last(), other);
        assert(front.push(entries.last()) =~= entries);
        lemma_push_get(taken_from(front, key), entries.last(), other);
    }
}

/// To put a value under a key makes no key occur twice.
pub proof fn put_keeps_keys_distinct<V>(entries: Seq<(Seq<char>, V)>, key: Seq<char>, value: V)
    requires
        distinct_keys(entries),
    ensures
        distinct_keys(put_in(entries, key, value)),
{
    let after = put_in(entries, key, value);
    lemma_index_from(entries, key, 0);
    assert forall|i: int, j: int| 0 <= i < j < after.len() implies (#[trigger] after[i]).0 != (
    #[trigger] after[j]).0 by {
        if j < entries.len() {
            assert(after[i].0 == entries[i].0);
            assert(after[j].0 == entries[j].0);
        } else {
            assert(after[i] == entries[i]);
        }
    }
}

/// To take a key away makes no other occur twice, and brings none in.
pub proof fn take_keeps_keys_distinct<V>(entries: Seq<(Seq<char>, V)>, key: Seq<char>)
    requires
        distinct_keys(entries),
    ensures
        distinct_keys(taken_from(entries, key)),
        forall|i: int|
            0 <= i < taken_from(entries, key).len() ==> entries.contains(
                #[trigger] taken_from(entries, key)[i],
            ),
    decreases entries.len(),
{
    if entries.len() > 0 {
        let front = entries.drop_last();
        let last = entries.last();
        assert forall|i: int, j: int| 0 <= i < j < front.len() implies (#[trigger] front[i]).0 != (
        #[trigger] front[j]).0 by {
            assert(entries[i].0 != entries[j].0);
        }
        take_keeps_keys_distinct(front, key);
        let kept = taken_from(front, key);
        let after = taken_from(entries, key);
        assert forall|i: int| 0 <= i < kept.len() implies entries.contains(#[trigger] kept[i])
            && kept[i].0 != last.0 by {
            assert(front.contains(kept[i]));
            let k = choose|k: int| 0 <= k < front.len() && front[k] == kept[i];
            assert(entries[k] == kept[i]);
            assert(entries[k].0 != entries[entries.len() - 1].0);
        }
        assert(entries[entries.len() - 1] == last);
        assert forall|i: int| 0 <= i < after.len() implies entries.contains(
            #[trigger] after[i],
        ) by {
            if i < kept.len() {
                assert(after[i] == kept[i]);
            }
        }
        assert forall|i: int, j: int| 0 <= i < j < after.len() implies (#[trigger] after[i]).0 != (
        #[trigger] after[j]).0 by {
            assert(after[i] == kept[i]);
            if j < kept.len() {
                assert(after[j] == kept[j]);
            }
        }
    }
}

/// A conversion of the values that leaves the keys alone makes none occur twice.
pub proof fn collecting_keeps_keys_distinct<A, B, E>(
    entries: Seq<(Seq<char>, A)>,
    f: spec_fn(int, (Seq<char>, A)) -> Result<(Seq<char>, B), E>,
)
    requires
        distinct_keys(entries),
        collect(entries, f) is Ok,
        forall|i: int|
            0 <= i < entries.len() ==> (#[trigger] f(i, entries[i])) is Ok ==> f(
                i,
                entries[i],
            )->Ok_0.0 == entries[i].0,
    ensures
        distinct_keys(collect(entries, f)->Ok_0),
{
    lemma_collect_values(entries, f);
    let all = collect(entries, f)->Ok_0;
    assert forall|i: int, j: int| 0 <= i < j < all.len() implies (#[trigger] all[i]).0 != (
    #[trigger] all[j]).0 by {
        assert(f(i, entries[i]) is Ok && f(j, entries[j]) is Ok);
        assert(entries[i].0 != entries[j].0);
    }
}

/// The same entries in another order have each key once too.
pub proof fn reordering_keeps_keys_distinct<V>(
    entries: Seq<(Seq<char>, V)>,
    other: Seq<(Seq<char>, V)>,
)
    requires
        distinct_keys(entries),
        entries.to_multiset() == other.to_multiset(),
    ensures
        distinct_keys(other),
{
    broadcast use vstd::seq_lib::group_to_multiset_ensures;

    assert forall|i: int, j: int|
        0 <= i < entries.len() && 0 <= j < entries.len() && i != j implies entries[i]
        != entries[j] by {
        if i < j {
            assert(entries[i].0 != entries[j].0);
        } else {
            assert(entries[j].0 != entries[i].0);
        }
    }
    entries.lemma_multiset_has_no_duplicates();
    other.lemma_multiset_has_no_duplicates_conv();
    assert forall|i: int, j: int| 0 <= i < j < other.len() implies (#[trigger] other[i]).0 != (
    #[trigger] other[j]).0 by {
        assert(other.contains(other[i]) && other.contains(other[j]));
        assert(entries.to_multiset().count(other[i]) > 0);
        assert(entries.to_multiset().count(other[j]) > 0);
        assert(entries.contains(other[i]) && entries.contains(other[j]));
        let a = choose|a: int| 0 <= a < entries.len() && entries[a] == other[i];
        let b = choose|b: int| 0 <= b < entries.len() && entries[b] == other[j];
        assert(other[i] != other[j]);
        if a < b {
            assert(entries[a].0 != entries[b].0);
        } else {
            assert(entries[b].0 != entries[a].0);
        }
    }
}

/// Put a value under a key.
pub fn put<T: View>(entries: &mut Vec<(String, T)>, key: &str, value: T)
    ensures
        keyed_view(final(entries)@) == put_in(keyed_view(old(entries)@), key@, value@),
{
    proof {
        lemma_index_of_view(entries@, key@, 0);
    }
    let ghost before = entries@;
    let own = text::owned(key);
    match position(entries, key) {
        Some(i) => {
            entries.set(i, (own, value));
            assert(keyed_view(entries@) =~= keyed_view(before).update(i as int, (key@, value@)));
        },
        None => {
            entries.push((own, value));
            assert(keyed_view(entries@) =~= keyed_view(before).push((key@, value@)));
        },
    }
}

/// Put a plain value under a key.
pub fn put_plain<V>(entries: &mut Vec<(String, V)>, key: &str, value: V)
    ensures
        keyed(final(entries)@) == put_in(keyed(old(entries)@), key@, value),
{
    let ghost before = entries@;
    let own = text::owned(key);
    match position(entries, key) {
        Some(i) => {
            entries.set(i, (own, value));
            assert(keyed(entries@) =~= keyed(before).update(i as int, (key@, value)));
        },
        None => {
            entries.push((own, value));
            assert(keyed(entries@) =~= keyed(before).push((key@, value)));
        },
    }
}

/// Take the entries with a key away.
pub fn take_plain<V: Copy>(entries: &mut Vec<(String, V)>, key: &str)
    ensures
        keyed(final(entries)@) == taken_from(keyed(old(entries)@), key@),
{
    let ghost all = keyed(entries@);
    let mut out: Vec<(String, V)> = Vec::new();
    assert(keyed(out@) =~= Seq::empty());
    assert(all.take(0) =~= Seq::empty());
    let mut i: usize = 0;
    while i < entries.len()
        invariant
            i <= entries@.len(),
            all == keyed(entries@),
            keyed(out@) == taken_from(all.take(i as int), key@),
        decreases entries.len() - i,
    {
        assert(all.take(i + 1).drop_last() =~= all.take(i as int));
        assert(all.take(i + 1).last() == all[i as int]);
        if !text::same(entries[i].0.as_str(), key) {
            let ghost before = keyed(out@);
            out.push((entries[i].0.clone(), entries[i].1));
            assert(keyed(out@) =~= before.push(all[i as int]));
        }
        i += 1;
    }
    assert(all.take(i as int) =~= all);
    *entries = out;
}

/// What stands under a key is the value of the first entry with it, and there
/// is none where no entry has the key.
pub proof fn value_is_that_of_the_first_entry<V>(
    entries: Seq<(Seq<char>, V)>,
    key: Seq<char>,
    i: int,
)
    ensures
        0 <= i < entries.len() && entries[i].0 == key && (forall|k: int|
            0 <= k < i ==> (#[trigger] entries[k]).0 != key) ==> get(entries, key) == Some(
            entries[i].1,
        ),
        (forall|k: int| 0 <= k < entries.len() ==> (#[trigger] entries[k]).0 != key) ==> get(
            entries,
            key,
        ) is None,
        has_key(entries, key) <==> exists|k: int|
            0 <= k < entries.len() && (#[trigger] entries[k]).0 == key,
{
    lemma_index_from(entries, key, 0);
}

/// Putting a value under a key keeps every other entry in its place, and a new
/// key comes last.
pub proof fn put_keeps_the_order<V>(
    entries: Seq<(Seq<char>, V)>,
    key: Seq<char>,
    value: V,
    i: int,
)
    requires
        0 <= i < entries.len(),
    ensures
        put_in(entries, key, value)[i].0 == entries[i].0,
        entries[i].0 != key ==> put_in(entries, key, value)[i] == entries[i],
        has_key(entries, key) ==> put_in(entries, key, value).len() == entries.len(),
        !has_key(entries, key) ==> put_in(entries, key, value) == entries.push((key, value)),
{
    lemma_index_from(entries, key, 0);
}

/// A conversion fails with the failure of the first element that has one.
pub proof fn lemma_collect_first_failure<A, B, E>(
    values: Seq<A>,
    f: spec_fn(int, A) -> Result<B, E>,
    at: int,
)
    requires
        0 <= at < values.len(),
        forall|i: int| 0 <= i < at ==> (#[trigger] f(i, values[i])) is Ok,
        f(at, values[at]) is Err,
    ensures
        collect(values, f) == Err::<Seq<B>, E>(f(at, values[at])->Err_0),
{
    let front = values.take(at);
    assert forall|i: int| 0 <= i < front.len() implies (#[trigger] f(i, front[i])) is Ok by {
        assert(front[i] == values[i]);
    }
    lemma_collect_all_ok(front, f);
    lemma_collect_step(values, f, at);
    lemma_collect_fails(values, f, at + 1);
}

} // verus!
