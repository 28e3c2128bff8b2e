//! Sorting by an order that a type states for itself.

use crate::model;
use crate::text;
use vstd::prelude::*;

verus! {

/// A type whose values are put in order: by what precedes what, where values
/// that do not precede each other keep their places.
pub trait Ranked: View + Sized {
    /// Whether `a` comes before `b`.
    spec fn precedes(a: Self::V, b: Self::V) -> bool;

    /// Two values do not precede each other.
    proof fn lemma_one_way(a: Self::V, b: Self::V)
        requires
            Self::precedes(a, b),
        ensures
            !Self::precedes(b, a),
    ;

    /// Not to be preceded carries over.
    proof fn lemma_carries_over(a: Self::V, b: Self::V, c: Self::V)
        requires
            !Self::precedes(b, a),
            !Self::precedes(c, b),
        ensures
            !Self::precedes(c, a),
    ;

    fn goes_before(&self, other: &Self) -> (r: bool)
        ensures
            r == Self::precedes(self@, other@),
    ;
}

/// No later value precedes an earlier one.
pub open spec fn in_order<T: Ranked>(values: Seq<T::V>) -> bool {
    forall|i: int, j: int|
        0 <= i < j < values.len() ==> !T::precedes(#[trigger] values[j], #[trigger] values[i])
}

/// The values in order.
pub fn sorted<T: Ranked>(values: Vec<T>) -> (r: Vec<T>)
    ensures
        in_order::<T>(model::seq_view(r@)),
        model::seq_view(r@).to_multiset() == model::seq_view(values@).to_multiset(),
{
    broadcast use vstd::seq_lib::group_to_multiset_ensures;

    let ghost all = model::seq_view(values@);
    let mut rest = values;
    let mut out: Vec<T> = Vec::new();
    assert(model::seq_view(out@) =~= Seq::empty());
    assert(all + model::seq_view(out@) =~= all);
    while rest.len() > 0
        invariant
            in_order::<T>(model::seq_view(out@)),
            (model::seq_view(rest@) + model::seq_view(out@)).to_multiset() == all.to_multiset(),
        decreases rest.len(),
    {
        let ghost rest_before = model::seq_view(rest@);
        let ghost out_before = model::seq_view(out@);
        let value = match rest.pop() {
            Some(value) => value,
            None => {
                return out;
            },
        };
        assert(model::seq_view(rest@) =~= rest_before.drop_last());
        assert(value@ == rest_before.last());
        let mut at: usize = 0;
        while at < out.len() && out[at].goes_before(&value)
            invariant
                at <= out@.len(),
                model::seq_view(out@) == out_before,
                forall|k: int| 0 <= k < at ==> T::precedes(#[trigger] out_before[k], value@),
            decreases out.len() - at,
        {
            at += 1;
        }
        proof {
            assert(at < out_before.len() ==> !T::precedes(out_before[at as int], value@));
            lemma_insert_keeps_order::<T>(out_before, value@, at as int);
        }
        out.insert(at, value);
        proof {
            assert(model::seq_view(out@) =~= out_before.insert(at as int, value@));
            let joint = rest_before.drop_last() + out_before;
            assert(rest_before =~= rest_before.drop_last().push(value@));
            let n = rest_before.len() - 1;
            assert(rest_before + out_before =~= joint.insert(n, value@));
            vstd::seq_lib::to_multiset_insert(joint, n, value@);
            assert(rest_before.drop_last() + out_before.insert(at as int, value@) =~= joint.insert(
                n + at,
                value@,
            ));
            vstd::seq_lib::to_multiset_insert(joint, n + at, value@);
        }
    }
    assert(model::seq_view(rest@) + model::seq_view(out@) =~= model::seq_view(out@));
    out
}

proof fn lemma_insert_keeps_order<T: Ranked>(values: Seq<T::V>, value: T::V, at: int)
    requires
        in_order::<T>(values),
        0 <= at <= values.len(),
        forall|k: int| 0 <= k < at ==> T::precedes(#[trigger] values[k], value),
        at < values.len() ==> !T::precedes(values[at], value),
    ensures
        in_order::<T>(values.insert(at, value)),
{
    let after = values.insert(at, value);
    assert forall|i: int, j: int| 0 <= i < j < after.len() implies !T::precedes(
        #[trigger] after[j],
        #[trigger] after[i],
    ) by {
        if j == at {
            assert(after[i] == values[i]);
            T::lemma_one_way(values[i], value);
        } else if i == at {
            assert(after[j] == values[j - 1]);
            if j - 1 > at {
                assert(!T::precedes(values[j - 1], values[at]));
                T::lemma_carries_over(value, values[at], values[j - 1]);
            }
        } else {
            let a = if i < at {
                i
            } else {
                i - 1
            };
            let b = if j < at {
                j
            } else {
                j - 1
            };
            assert(after[i] == values[a]);
            assert(after[j] == values[b]);
        }
    }
}

/// Where of two different values one comes before the other, there is one order
/// that the same values can be put in.
pub proof fn order_is_determined<T: Ranked>(a: Seq<T::V>, b: Seq<T::V>)
    requires
        in_order::<T>(a),
        in_order::<T>(b),
        a.to_multiset() == b.to_multiset(),
        forall|x: T::V, y: T::V|
            a.contains(x) && a.contains(y) && x != y ==> #[trigger] T::precedes(x, y)
                || T::precedes(y, x),
    ensures
        a == b,
    decreases a.len(),
{
    broadcast use vstd::seq_lib::group_to_multiset_ensures;

    a.to_multiset_ensures();
    b.to_multiset_ensures();
    assert(a.len() == a.to_multiset().len());
    assert(b.len() == b.to_multiset().len());
    if a.len() > 0 {
        let (x, y) = (a[0], b[0]);
        assert(a.contains(x) && b.contains(y));
        assert(b.to_multiset().count(x) > 0);
        assert(a.to_multiset().count(y) > 0);
        assert(b.contains(x) && a.contains(y));
        if x != y {
            let i = choose|i: int| 0 <= i < a.len() && a[i] == y;
            let j = choose|j: int| 0 <= j < b.len() && b[j] == x;
            assert(!T::precedes(a[i], a[0]));
            assert(!T::precedes(b[j], b[0]));
            assert(T::precedes(x, y) || T::precedes(y, x));
        }
        let (rest, other) = (a.remove(0), b.remove(0));
        assert(rest.to_multiset() =~= a.to_multiset().remove(x));
        assert(other.to_multiset() =~= b.to_multiset().remove(y));
        assert forall|v: T::V| rest.contains(v) implies a.contains(v) by {
            let k = choose|k: int| 0 <= k < rest.len() && rest[k] == v;
            assert(a[k + 1] == v);
        }
        assert forall|i: int, j: int| 0 <= i < j < rest.len() implies !T::precedes(
            #[trigger] rest[j],
            #[trigger] rest[i],
        ) by {
            assert(rest[i] == a[i + 1] && rest[j] == a[j + 1]);
        }
        assert forall|i: int, j: int| 0 <= i < j < other.len() implies !T::precedes(
            #[trigger] other[j],
            #[trigger] other[i],
        ) by {
            assert(other[i] == b[i + 1] && other[j] == b[j + 1]);
        }
        order_is_determined::<T>(rest, other);
        assert(a =~= seq![x] + rest);
        assert(b =~= seq![y] + other);
    } else {
        assert(a =~= b);
    }
}

/// Texts are in the order of their characters.
impl Ranked for String {
    open spec fn precedes(a: Seq<char>, b: Seq<char>) -> bool {
        text::before(a, b)
    }

    proof fn lemma_one_way(a: Seq<char>, b: Seq<char>) {
        if text::before(b, a) {
            text::lemma_before_transitive(a, b, a);
            text::lemma_before_irreflexive(a);
        }
    }

    proof fn lemma_carries_over(a: Seq<char>, b: Seq<char>, c: Seq<char>) {
        lemma_text_carries_over(a, b, c);
    }

    fn goes_before(&self, other: &Self) -> (r: bool) {
        text::comes_before(self.as_str(), other.as_str())
    }
}

/// Among texts, not to come before carries over.
pub proof fn lemma_text_carries_over(a: Seq<char>, b: Seq<char>, c: Seq<char>)
    requires
        !text::before(b, a),
        !text::before(c, b),
    ensures
        !text::before(c, a),
{
    if text::before(c, a) {
        text::lemma_before_total(a, b);
        text::lemma_before_total(b, c);
        if text::before(a, b) {
            text::lemma_before_transitive(c, a, b);
        }
    }
}

} // verus!
