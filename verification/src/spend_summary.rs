//! The rows that locally tracked spending is shown in, one per currency.
//!
//! The money always comes from the buckets per currency, never from the plain
//! figures kept next to them: printing one of those behind a `$` would relabel
//! whatever else is in the window.

use crate::currency::Currency;
use crate::model;
use crate::money_display;
use crate::money_display::{AmountView, DisplayAmount};
use crate::order;
use crate::order::Ranked;
use crate::rate::Rate;
use crate::rules;
use crate::text;
use vstd::prelude::*;

verus! {

/// What was spent in one currency: today, this month and altogether.
#[derive(Debug)]
pub struct SpendRow {
    pub currency: Currency,
    pub day: Rate,
    pub month: Rate,
    pub all_time: Rate,
    pub note: Option<String>,
}

#[verifier::ext_equal]
pub struct SpendRowView {
    pub currency: Seq<char>,
    pub day: Rate,
    pub month: Rate,
    pub all_time: Rate,
    pub note: Option<Seq<char>>,
}

impl View for SpendRow {
    type V = SpendRowView;

    open spec fn view(&self) -> SpendRowView {
        SpendRowView {
            currency: self.currency@,
            day: self.day,
            month: self.month,
            all_time: self.all_time,
            note: model::opt_view(self.note),
        }
    }
}

/// Biggest spending altogether first, and by currency where it is equal.
impl Ranked for SpendRow {
    open spec fn precedes(a: SpendRowView, b: SpendRowView) -> bool {
        a.all_time.rank() > b.all_time.rank() || (a.all_time.rank() == b.all_time.rank()
            && text::before(a.currency, b.currency))
    }

    proof fn lemma_one_way(a: SpendRowView, b: SpendRowView) {
        if text::before(a.currency, b.currency) && text::before(b.currency, a.currency) {
            text::lemma_before_transitive(a.currency, b.currency, a.currency);
            text::lemma_before_irreflexive(a.currency);
        }
    }

    proof fn lemma_carries_over(a: SpendRowView, b: SpendRowView, c: SpendRowView) {
        if Self::precedes(c, a) && c.all_time.rank() == a.all_time.rank() {
            order::lemma_text_carries_over(a.currency, b.currency, c.currency);
        }
    }

    fn goes_before(&self, other: &Self) -> (r: bool) {
        if self.all_time.is_above(&other.all_time) {
            true
        } else if other.all_time.is_above(&self.all_time) {
            false
        } else {
            text::comes_before(self.currency.as_str(), other.currency.as_str())
        }
    }
}

/// One of the three windows of time.
#[derive(Debug, Clone, Copy, PartialEq, Eq, Structural)]
pub enum SpendWindow {
    Day,
    Month,
    AllTime,
}

/// The row of a currency in which nothing was spent.
pub open spec fn zero_row(currency: Seq<char>) -> SpendRowView {
    SpendRowView {
        currency,
        day: Rate { bits: 0 },
        month: Rate { bits: 0 },
        all_time: Rate { bits: 0 },
        note: None,
    }
}

/// A row with an amount in one window; its first note stays.
pub open spec fn row_with(row: SpendRowView, window: SpendWindow, amount: AmountView) -> SpendRowView {
    let noted = SpendRowView { note: rules::or_else(row.note, amount.note), ..row };
    match window {
        SpendWindow::Day => SpendRowView { day: amount.amount, ..noted },
        SpendWindow::Month => SpendRowView { month: amount.amount, ..noted },
        SpendWindow::AllTime => SpendRowView { all_time: amount.amount, ..noted },
    }
}

/// The index of the first row from `from` on in a currency.
pub open spec fn spend_row_from(rows: Seq<SpendRowView>, currency: Seq<char>, from: int) -> Option<
    int,
>
    decreases rows.len() - from,
{
    if from < 0 || from >= rows.len() {
        None
    } else if rows[from].currency == currency {
        Some(from)
    } else {
        spend_row_from(rows, currency, from + 1)
    }
}

/// The rows with one more amount in a window.
pub open spec fn rows_with(
    rows: Seq<SpendRowView>,
    window: SpendWindow,
    amount: AmountView,
) -> Seq<SpendRowView> {
    match spend_row_from(rows, amount.currency, 0) {
        Some(i) => rows.update(i, row_with(rows[i], window, amount)),
        None => rows.push(row_with(zero_row(amount.currency), window, amount)),
    }
}

/// The rows with the first `n` amounts of a window.
pub open spec fn rows_of(
    rows: Seq<SpendRowView>,
    window: SpendWindow,
    amounts: Seq<AmountView>,
    n: int,
) -> Seq<SpendRowView>
    decreases n,
{
    if n <= 0 {
        rows
    } else {
        rows_with(rows_of(rows, window, amounts, n - 1), window, amounts[n - 1])
    }
}

/// The rows of three windows.
pub open spec fn spend_rows_of(
    day: Seq<AmountView>,
    month: Seq<AmountView>,
    all_time: Seq<AmountView>,
) -> Seq<SpendRowView> {
    let first = rows_of(Seq::empty(), SpendWindow::Day, day, day.len() as int);
    let second = rows_of(first, SpendWindow::Month, month, month.len() as int);
    rows_of(second, SpendWindow::AllTime, all_time, all_time.len() as int)
}

proof fn lemma_spend_row_from(rows: Seq<SpendRowView>, currency: Seq<char>, from: int)
    requires
        0 <= from,
    ensures
        match spend_row_from(rows, currency, from) {
            Some(i) => from <= i < rows.len() && rows[i].currency == currency,
            None => forall|k: int| from <= k < rows.len() ==> (#[trigger] rows[k]).currency
                != currency,
        },
    decreases rows.len() - from,
{
    if from < rows.len() && rows[from].currency != currency {
        lemma_spend_row_from(rows, currency, from + 1);
    }
}

fn add_to_rows(rows: &mut Vec<SpendRow>, window: SpendWindow, amount: &DisplayAmount)
    ensures
        model::seq_view(final(rows)@) == rows_with(
            model::seq_view(old(rows)@),
            window,
            amount@,
        ),
{
    let ghost before = model::seq_view(rows@);
    proof {
        lemma_spend_row_from(before, amount@.currency, 0);
    }
    let n: usize = rows.len();
    let mut at: usize = 0;
    while at < n && !rows[at].currency.is(&amount.currency)
        invariant
            at <= n,
            n == rows@.len(),
            before == model::seq_view(rows@),
            spend_row_from(before, amount@.currency, 0) == spend_row_from(
                before,
                amount@.currency,
                at as int,
            ),
        decreases n - at,
    {
        assert(before[at as int] == rows@[at as int]@);
        at += 1;
    }
    let mut row = if at < n {
        assert(before[at as int] == rows@[at as int]@);
        rows.remove(at)
    } else {
        SpendRow {
            currency: amount.currency.clone(),
            day: Rate { bits: 0 },
            month: Rate { bits: 0 },
            all_time: Rate { bits: 0 },
            note: None,
        }
    };
    let ghost start = row@;
    if row.note.is_none() {
        row.note = model::copy_text(&amount.note);
    }
    match window {
        SpendWindow::Day => {
            row.day = amount.amount;
        },
        SpendWindow::Month => {
            row.month = amount.amount;
        },
        SpendWindow::AllTime => {
            row.all_time = amount.amount;
        },
    }
    assert(row@ =~= row_with(start, window, amount@));
    rows.insert(at, row);
    assert(model::seq_view(rows@) =~= rows_with(before, window, amount@));
}

fn add_window(rows: &mut Vec<SpendRow>, window: SpendWindow, amounts: &Vec<DisplayAmount>)
    ensures
        model::seq_view(final(rows)@) == rows_of(
            model::seq_view(old(rows)@),
            window,
            model::seq_view(amounts@),
            amounts@.len() as int,
        ),
{
    let ghost before = model::seq_view(rows@);
    let ghost all = model::seq_view(amounts@);
    let mut i: usize = 0;
    while i < amounts.len()
        invariant
            i <= amounts@.len(),
            all == model::seq_view(amounts@),
            model::seq_view(rows@) == rows_of(before, window, all, i as int),
        decreases amounts.len() - i,
    {
        assert(all[i as int] == amounts@[i as int]@);
        add_to_rows(rows, window, &amounts[i]);
        i += 1;
    }
}

/// The rows of spending, one per currency, from the display rows of the three
/// windows.
pub fn spend_rows(
    day: &Vec<DisplayAmount>,
    month: &Vec<DisplayAmount>,
    all_time: &Vec<DisplayAmount>,
) -> (r: Vec<SpendRow>)
    ensures
        order::in_order::<SpendRow>(model::seq_view(r@)),
        model::seq_view(r@).to_multiset() == spend_rows_of(
            model::seq_view(day@),
            model::seq_view(month@),
            model::seq_view(all_time@),
        ).to_multiset(),
{
    let mut rows: Vec<SpendRow> = Vec::new();
    assert(model::seq_view(rows@) =~= Seq::empty());
    add_window(&mut rows, SpendWindow::Day, day);
    add_window(&mut rows, SpendWindow::Month, month);
    add_window(&mut rows, SpendWindow::AllTime, all_time);
    order::sorted(rows)
}

/// The label of a row: with several rows it says which currency it is of.
pub open spec fn row_label(currency: Seq<char>, several: bool) -> Seq<char> {
    if several {
        "Local spend (this machine) ["@ + currency + "]"@
    } else {
        "Local spend (this machine)"@
    }
}

/// The text of a row, where the three amounts are written out.
pub open spec fn row_text(
    row: SpendRowView,
    day: Seq<char>,
    month: Seq<char>,
    all_time: Seq<char>,
) -> Seq<char> {
    money_display::labelled(day, row.currency) + " today · "@ + money_display::labelled(
        month,
        row.currency,
    ) + " this month · "@ + (money_display::labelled(all_time, row.currency) + " all-time"@
        + match row.note {
        Some(note) => " ("@ + note + ")"@,
        None => Seq::empty(),
    })
}

/// The label and the text of a row.
pub fn spend_summary_row(
    row: &SpendRow,
    several: bool,
    day: &str,
    month: &str,
    all_time: &str,
) -> (r: (String, String))
    ensures
        r.0@ == row_label(row@.currency, several),
        r.1@ == row_text(row@, day@, month@, all_time@),
{
    let label = if several {
        text::join3("Local spend (this machine) [", row.currency.as_str(), "]")
    } else {
        text::owned("Local spend (this machine)")
    };
    let note = match &row.note {
        Some(note) => text::join3(" (", note.as_str(), ")"),
        None => String::new(),
    };
    assert(row.note is None ==> note@ =~= Seq::empty());
    let day_text = money_display::format_amount(day, &row.currency);
    let month_text = money_display::format_amount(month, &row.currency);
    let all_text = money_display::format_amount(all_time, &row.currency);
    let last = text::join3(all_text.as_str(), " all-time", note.as_str());
    let value = text::join5(
        day_text.as_str(),
        " today · ",
        month_text.as_str(),
        " this month · ",
        last.as_str(),
    );
    (label, value)
}

/// Every currency of the rows is one that something was spent in.
pub proof fn rows_come_from_amounts(
    rows: Seq<SpendRowView>,
    window: SpendWindow,
    amounts: Seq<AmountView>,
    n: int,
    at: int,
)
    requires
        0 <= n <= amounts.len(),
        0 <= at < rows_of(rows, window, amounts, n).len(),
    ensures
        (at < rows.len() && rows_of(rows, window, amounts, n)[at].currency == rows[at].currency)
            || exists|k: int|
            0 <= k < n && (#[trigger] amounts[k]).currency == rows_of(
                rows,
                window,
                amounts,
                n,
            )[at].currency,
    decreases n,
{
    if n > 0 {
        let before = rows_of(rows, window, amounts, n - 1);
        lemma_spend_row_from(before, amounts[n - 1].currency, 0);
        if at < before.len() {
            rows_come_from_amounts(rows, window, amounts, n - 1, at);
            assert(rows_of(rows, window, amounts, n)[at].currency == before[at].currency);
        } else {
            assert(amounts[n - 1].currency == rows_of(rows, window, amounts, n)[at].currency);
        }
    }
}

/// The amount that a row shows for a window.
pub open spec fn figure(row: SpendRowView, window: SpendWindow) -> Rate {
    match window {
        SpendWindow::Day => row.day,
        SpendWindow::Month => row.month,
        SpendWindow::AllTime => row.all_time,
    }
}

/// No two amounts are in one currency.
pub open spec fn one_per_currency(amounts: Seq<AmountView>) -> bool {
    forall|i: int, j: int|
        0 <= i < j < amounts.len() ==> (#[trigger] amounts[i]).currency != (
        #[trigger] amounts[j]).currency
}

/// Whether an amount is the one that a list has in a currency, or zero where it
/// has none.
pub open spec fn is_amount_in(amounts: Seq<AmountView>, currency: Seq<char>, amount: Rate) -> bool {
    ||| exists|k: int|
        0 <= k < amounts.len() && (#[trigger] amounts[k]).currency == currency && amounts[k].amount
            == amount
    ||| amount == Rate { bits: 0 } && forall|k: int|
        0 <= k < amounts.len() ==> (#[trigger] amounts[k]).currency != currency
}

/// Whether some row is in a currency.
pub open spec fn has_row(rows: Seq<SpendRowView>, currency: Seq<char>) -> bool {
    exists|i: int| 0 <= i < rows.len() && (#[trigger] rows[i]).currency == currency
}

/// No two rows are in one currency.
pub open spec fn rows_differ(rows: Seq<SpendRowView>) -> bool {
    forall|i: int, j: int|
        0 <= i < j < rows.len() ==> (#[trigger] rows[i]).currency != (#[trigger] rows[j]).currency
}

/// What adding the amounts of one window does to rows that have none of it.
proof fn lemma_window_is_added(
    rows: Seq<SpendRowView>,
    window: SpendWindow,
    amounts: Seq<AmountView>,
    n: int,
)
    requires
        0 <= n <= amounts.len(),
        one_per_currency(amounts),
        rows_differ(rows),
        forall|i: int|
            0 <= i < rows.len() ==> figure(#[trigger] rows[i], window) == (Rate { bits: 0 }),
    ensures
        ({
            let after = rows_of(rows, window, amounts, n);
            &&& rows.len() <= after.len()
            &&& rows_differ(after)
            &&& forall|i: int|
                0 <= i < after.len() ==> is_amount_in(
                    amounts.take(n),
                    (#[trigger] after[i]).currency,
                    figure(after[i], window),
                )
            &&& forall|i: int, other: SpendWindow|
                0 <= i < after.len() && other != window ==> #[trigger] figure(after[i], other)
                    == if i < rows.len() {
                    figure(rows[i], other)
                } else {
                    Rate { bits: 0 }
                }
            &&& forall|i: int|
                0 <= i < rows.len() ==> (#[trigger] after[i]).currency == rows[i].currency
            &&& forall|i: int|
                rows.len() <= i < after.len() ==> !has_row(rows, (#[trigger] after[i]).currency)
            &&& forall|k: int|
                0 <= k < n ==> has_row(after, (#[trigger] amounts[k]).currency)
        }),
    decreases n,
{
    let after = rows_of(rows, window, amounts, n);
    if n <= 0 {
        assert(amounts.take(0).len() == 0);
    } else {
        lemma_window_is_added(rows, window, amounts, n - 1);
        let before = rows_of(rows, window, amounts, n - 1);
        let amount = amounts[n - 1];
        lemma_spend_row_from(before, amount.currency, 0);
        let at = match spend_row_from(before, amount.currency, 0) {
            Some(i) => i,
            None => before.len() as int,
        };
        assert(after[at].currency == amount.currency);
        assert forall|i: int| 0 <= i < after.len() && i != at implies after[i] == before[i] by {}
        assert forall|i: int, other: SpendWindow|
            0 <= i < after.len() && other != window implies #[trigger] figure(after[i], other)
            == if i < rows.len() {
            figure(rows[i], other)
        } else {
            Rate { bits: 0 }
        } by {
            if i < before.len() {
                assert(figure(after[i], other) == figure(before[i], other));
            } else {
                assert(after[i] == row_with(zero_row(amount.currency), window, amount));
            }
        }
        assert forall|i: int| 0 <= i < rows.len() implies (#[trigger] after[i]).currency
            == rows[i].currency by {
            assert(after[i].currency == before[i].currency);
        }
        assert forall|i: int| 0 <= i < after.len() implies is_amount_in(
            amounts.take(n),
            (#[trigger] after[i]).currency,
            figure(after[i], window),
        ) by {
            if i == at {
                assert(amounts.take(n)[n - 1] == amount);
            } else {
                assert(is_amount_in(
                    amounts.take(n - 1),
                    before[i].currency,
                    figure(before[i], window),
                ));
                if exists|k: int|
                    0 <= k < n - 1 && (#[trigger] amounts.take(n - 1)[k]).currency
                        == before[i].currency && amounts.take(n - 1)[k].amount == figure(
                        before[i],
                        window,
                    ) {
                    let k = choose|k: int|
                        0 <= k < n - 1 && (#[trigger] amounts.take(n - 1)[k]).currency
                            == before[i].currency && amounts.take(n - 1)[k].amount == figure(
                            before[i],
                            window,
                        );
                    assert(amounts.take(n)[k] == amounts.take(n - 1)[k]);
                } else {
                    assert forall|k: int| 0 <= k < n implies (#[trigger] amounts.take(n)[k]).currency
                        != after[i].currency by {
                        if k < n - 1 {
                            assert(amounts.take(n)[k] == amounts.take(n - 1)[k]);
                        } else if i < at {
                            assert(after[i].currency != after[at].currency);
                        } else {
                            assert(before[at].currency != before[i].currency);
                        }
                    }
                }
            }
        }
        assert forall|k: int| 0 <= k < n implies has_row(
            after,
            (#[trigger] amounts[k]).currency,
        ) by {
            if k == n - 1 {
                assert(after[at].currency == amounts[k].currency);
            } else {
                let i = choose|i: int|
                    0 <= i < before.len() && (#[trigger] before[i]).currency
                        == amounts[k].currency;
                assert(after[i].currency == before[i].currency);
            }
        }
        assert forall|i: int, j: int| 0 <= i < j < after.len() implies (
        #[trigger] after[i]).currency != (#[trigger] after[j]).currency by {
            if j < before.len() {
                assert(before[i].currency != before[j].currency);
                assert(after[i].currency == before[i].currency);
                assert(after[j].currency == before[j].currency);
            } else {
                assert(before[i].currency != amount.currency);
            }
        }
        assert forall|i: int| rows.len() <= i < after.len() implies !has_row(
            rows,
            (#[trigger] after[i]).currency,
        ) by {
            if i < before.len() {
                assert(after[i].currency == before[i].currency);
            } else if has_row(rows, after[i].currency) {
                let k = choose|k: int|
                    0 <= k < rows.len() && (#[trigger] rows[k]).currency == after[i].currency;
                assert(before[k].currency == rows[k].currency);
            }
        }
    }
}

/// For windows with one amount per currency, each row shows what was spent in
/// its currency: today what the day has of it, this month what the month has, and
/// altogether what all time has, and zero where a window has none. Every currency
/// of any window has a row, and no currency has two.
pub proof fn each_row_shows_its_windows(
    day: Seq<AmountView>,
    month: Seq<AmountView>,
    all_time: Seq<AmountView>,
    rows: Seq<SpendRowView>,
)
    requires
        one_per_currency(day),
        one_per_currency(month),
        one_per_currency(all_time),
        rows.to_multiset() == spend_rows_of(day, month, all_time).to_multiset(),
    ensures
        forall|i: int|
            0 <= i < rows.len() ==> is_amount_in(day, (#[trigger] rows[i]).currency, rows[i].day),
        forall|i: int|
            0 <= i < rows.len() ==> is_amount_in(
                month,
                (#[trigger] rows[i]).currency,
                rows[i].month,
            ),
        forall|i: int|
            0 <= i < rows.len() ==> is_amount_in(
                all_time,
                (#[trigger] rows[i]).currency,
                rows[i].all_time,
            ),
        forall|k: int| 0 <= k < day.len() ==> has_row(rows, (#[trigger] day[k]).currency),
        forall|k: int| 0 <= k < month.len() ==> has_row(rows, (#[trigger] month[k]).currency),
        forall|k: int|
            0 <= k < all_time.len() ==> has_row(rows, (#[trigger] all_time[k]).currency),
        rows_differ(rows),
{
    broadcast use vstd::seq_lib::group_to_multiset_ensures;

    let none = Seq::<SpendRowView>::empty();
    let first = rows_of(none, SpendWindow::Day, day, day.len() as int);
    let second = rows_of(first, SpendWindow::Month, month, month.len() as int);
    let third = rows_of(second, SpendWindow::AllTime, all_time, all_time.len() as int);
    assert(day.take(day.len() as int) =~= day);
    assert(month.take(month.len() as int) =~= month);
    assert(all_time.take(all_time.len() as int) =~= all_time);
    lemma_window_is_added(none, SpendWindow::Day, day, day.len() as int);
    assert forall|i: int| 0 <= i < first.len() implies figure(
        #[trigger] first[i],
        SpendWindow::Month,
    ) == (Rate { bits: 0 }) && figure(first[i], SpendWindow::AllTime) == (Rate { bits: 0 }) by {}
    lemma_window_is_added(first, SpendWindow::Month, month, month.len() as int);
    assert forall|i: int| 0 <= i < second.len() implies figure(
        #[trigger] second[i],
        SpendWindow::AllTime,
    ) == (Rate { bits: 0 }) by {}
    lemma_window_is_added(second, SpendWindow::AllTime, all_time, all_time.len() as int);
    assert forall|i: int| 0 <= i < third.len() implies is_amount_in(
        day,
        (#[trigger] third[i]).currency,
        third[i].day,
    ) && is_amount_in(month, third[i].currency, third[i].month) && is_amount_in(
        all_time,
        third[i].currency,
        third[i].all_time,
    ) by {
        assert(figure(third[i], SpendWindow::AllTime) == third[i].all_time);
        assert(figure(third[i], SpendWindow::Month) == third[i].month);
        assert(figure(third[i], SpendWindow::Day) == third[i].day);
        if i < second.len() {
            assert(third[i].currency == second[i].currency);
            assert(figure(second[i], SpendWindow::Month) == second[i].month);
            assert(figure(second[i], SpendWindow::Day) == second[i].day);
            if i < first.len() {
                assert(second[i].currency == first[i].currency);
                assert(figure(first[i], SpendWindow::Day) == first[i].day);
            } else {
                assert(!has_row(first, second[i].currency));
                assert forall|k: int| 0 <= k < day.len() implies (#[trigger] day[k]).currency
                    != third[i].currency by {
                    assert(has_row(first, day[k].currency));
                }
            }
        } else {
            assert(!has_row(second, third[i].currency));
            assert forall|k: int| 0 <= k < month.len() implies (#[trigger] month[k]).currency
                != third[i].currency by {
                assert(has_row(second, month[k].currency));
            }
            assert forall|k: int| 0 <= k < day.len() implies (#[trigger] day[k]).currency
                != third[i].currency by {
                assert(has_row(first, day[k].currency));
                let j = choose|j: int|
                    0 <= j < first.len() && (#[trigger] first[j]).currency == day[k].currency;
                assert(second[j].currency == first[j].currency);
                assert(has_row(second, day[k].currency));
            }
        }
    }
    assert forall|c: Seq<char>| has_row(first, c) implies has_row(second, c) by {
        let j = choose|j: int| 0 <= j < first.len() && (#[trigger] first[j]).currency == c;
        assert(second[j].currency == first[j].currency);
    }
    assert forall|c: Seq<char>| has_row(second, c) implies has_row(third, c) by {
        let j = choose|j: int| 0 <= j < second.len() && (#[trigger] second[j]).currency == c;
        assert(third[j].currency == second[j].currency);
    }
    assert forall|i: int| 0 <= i < rows.len() implies third.contains(#[trigger] rows[i]) by {
        assert(rows.contains(rows[i]));
        assert(rows.to_multiset().count(rows[i]) > 0);
        assert(third.to_multiset().count(rows[i]) > 0);
    }
    assert forall|c: Seq<char>| has_row(third, c) implies has_row(rows, c) by {
        let j = choose|j: int| 0 <= j < third.len() && (#[trigger] third[j]).currency == c;
        assert(third.contains(third[j]));
        assert(third.to_multiset().count(third[j]) > 0);
        assert(rows.to_multiset().count(third[j]) > 0);
        assert(rows.contains(third[j]));
        let i = choose|i: int| 0 <= i < rows.len() && rows[i] == third[j];
        assert(rows[i].currency == c);
    }
    assert forall|k: int| 0 <= k < day.len() implies has_row(
        rows,
        (#[trigger] day[k]).currency,
    ) by {
        assert(has_row(first, day[k].currency));
    }
    assert forall|k: int| 0 <= k < month.len() implies has_row(
        rows,
        (#[trigger] month[k]).currency,
    ) by {
        assert(has_row(second, month[k].currency));
    }
    assert forall|k: int| 0 <= k < all_time.len() implies has_row(
        rows,
        (#[trigger] all_time[k]).currency,
    ) by {
        assert(has_row(third, all_time[k].currency));
    }
    assert(third.no_duplicates()) by {
        assert forall|i: int, j: int|
            0 <= i < third.len() && 0 <= j < third.len() && i != j implies third[i] != third[j] by {
            if i < j {
                assert(third[i].currency != third[j].currency);
            } else {
                assert(third[j].currency != third[i].currency);
            }
        }
    }
    third.lemma_multiset_has_no_duplicates();
    rows.lemma_multiset_has_no_duplicates_conv();
    assert forall|i: int, j: int| 0 <= i < j < rows.len() implies (#[trigger] rows[i]).currency
        != (#[trigger] rows[j]).currency by {
        let a = choose|a: int| 0 <= a < third.len() && third[a] == rows[i];
        let b = choose|b: int| 0 <= b < third.len() && third[b] == rows[j];
        assert(third.contains(rows[i]) && third.contains(rows[j]));
        assert(rows[i] != rows[j]);
        if a < b {
            assert(third[a].currency != third[b].currency);
        } else if b < a {
            assert(third[b].currency != third[a].currency);
        }
    }
}

/// The text of a row states the three amounts in that order, each with its
/// words, and the note behind them.
pub proof fn row_text_states_the_windows_in_order(
    row: SpendRowView,
    day: Seq<char>,
    month: Seq<char>,
    all_time: Seq<char>,
)
    requires
        row.currency == "USD"@,
        row.note is None,
    ensures
        row_text(row, day, month, all_time) == "$"@ + day + " today · $"@ + month
            + " this month · $"@ + all_time + " all-time"@,
{
    reveal_strlit("USD");
    reveal_strlit("$");
    reveal_strlit(" today · ");
    reveal_strlit(" today · $");
    reveal_strlit(" this month · ");
    reveal_strlit(" this month · $");
    assert(row_text(row, day, month, all_time) =~= "$"@ + day + " today · $"@ + month
        + " this month · $"@ + all_time + " all-time"@);
}

/// The rows are shown with the largest total first, and equal totals in the
/// order of their codes.
pub proof fn largest_total_is_shown_first(rows: Seq<SpendRowView>, i: int, j: int)
    requires
        order::in_order::<SpendRow>(rows),
        0 <= i < j < rows.len(),
    ensures
        rows[i].all_time.rank() >= rows[j].all_time.rank(),
        rows[i].all_time.rank() == rows[j].all_time.rank() ==> !text::before(
            rows[j].currency,
            rows[i].currency,
        ),
{
}

/// A row says which currency it is of exactly where there are several.
pub proof fn row_names_its_currency_among_several(currency: Seq<char>)
    ensures
        row_label(currency, true) == "Local spend (this machine) ["@ + currency + "]"@,
        row_label(currency, false) == "Local spend (this machine)"@,
{
}

} // verus!
