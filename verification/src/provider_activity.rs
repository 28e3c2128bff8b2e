//! Cross-provider activity ledger.
//!
//! Per login or credential ("source key") it holds when it was last used and
//! what was spent through it: today, this month and since the ledger began,
//! each per currency. An amount is never relabelled or converted here.
//!
//! An amount is kept as the terms that add up to it, in order, so that the
//! caller adds them up exactly as they came in.

use crate::clock::WindowLabels;
use crate::currency::Currency;
use crate::model;
use crate::order;
use crate::order::Ranked;
use crate::rate::Rate;
use crate::text;
use vstd::prelude::*;

verus! {

/// The ledger format that is written: 1 has one USD figure per window, 2 adds
/// the amounts per currency and keeps the figures as a mirror.
pub const PROVIDER_ACTIVITY_SCHEMA_VERSION: u32 = 2;

/// Skip a new last-used time when the stored one is within this many seconds.
pub const LAST_USED_WRITE_THROTTLE_SECS: u64 = 30;

/// How long a copy of the ledger answers queries, in nanoseconds.
pub const QUERY_RELOAD_TTL_NANOS: u64 = 2_000_000_000;

/// Amounts per currency, by code in ascending order; each is the sum of its
/// terms from the first to the last.
#[derive(Debug)]
pub struct Buckets {
    pub entries: Vec<(String, Vec<Rate>)>,
}

impl View for Buckets {
    type V = Seq<(Seq<char>, Seq<Rate>)>;

    open spec fn view(&self) -> Seq<(Seq<char>, Seq<Rate>)> {
        model::keyed_view(self.entries@)
    }
}

/// The codes are in ascending order.
pub open spec fn in_code_order(buckets: Seq<(Seq<char>, Seq<Rate>)>) -> bool {
    forall|i: int, j: int|
        0 <= i < j < buckets.len() ==> text::before(
            (#[trigger] buckets[i]).0,
            (#[trigger] buckets[j]).0,
        )
}

/// The amounts with one more term: at the end of the bucket of its currency, or
/// in a bucket of its own at the place of its code.
pub open spec fn with_term(
    buckets: Seq<(Seq<char>, Seq<Rate>)>,
    code: Seq<char>,
    amount: Rate,
) -> Seq<(Seq<char>, Seq<Rate>)>
    decreases buckets.len(),
{
    if buckets.len() == 0 {
        seq![(code, seq![amount])]
    } else if buckets[0].0 == code {
        buckets.update(0, (code, buckets[0].1.push(amount)))
    } else if text::before(code, buckets[0].0) {
        seq![(code, seq![amount])] + buckets
    } else {
        seq![buckets[0]] + with_term(buckets.skip(1), code, amount)
    }
}

fn copy_rates(rates: &Vec<Rate>) -> (r: Vec<Rate>)
    ensures
        r@ == rates@,
{
    let mut out: Vec<Rate> = Vec::new();
    let mut i: usize = 0;
    while i < rates.len()
        invariant
            i <= rates@.len(),
            out@ == rates@.take(i as int),
        decreases rates.len() - i,
    {
        out.push(rates[i]);
        i += 1;
        assert(rates@.take(i as int) =~= rates@.take(i - 1).push(rates@[i - 1]));
    }
    assert(rates@.take(i as int) =~= rates@);
    out
}

impl Clone for Buckets {
    fn clone(&self) -> (r: Self)
        ensures
            r@ == self@,
    {
        let mut entries: Vec<(String, Vec<Rate>)> = Vec::new();
        let mut i: usize = 0;
        while i < self.entries.len()
            invariant
                i <= self.entries@.len(),
                entries@.len() == i,
                forall|k: int|
                    0 <= k < i ==> (#[trigger] entries@[k]).0@ == self.entries@[k].0@
                        && entries@[k].1@ == self.entries@[k].1@,
            decreases self.entries.len() - i,
        {
            entries.push((self.entries[i].0.clone(), copy_rates(&self.entries[i].1)));
            i += 1;
        }
        assert(model::keyed_view(entries@) =~= model::keyed_view(self.entries@));
        Buckets { entries }
    }
}

impl Buckets {
    pub fn new() -> (r: Buckets)
        ensures
            r@.len() == 0,
    {
        Buckets { entries: Vec::new() }
    }

    pub fn is_empty(&self) -> (r: bool)
        ensures
            r == (self@.len() == 0),
    {
        self.entries.len() == 0
    }

    /// Add an amount to the bucket of its currency.
    pub fn add_term(&mut self, currency: &Currency, amount: Rate)
        ensures
            final(self)@ == with_term(old(self)@, currency@, amount),
    {
        let ghost all = self@;
        let mut i: usize = 0;
        assert(all.skip(0) =~= all);
        assert(all.take(0) + with_term(all, currency@, amount) =~= with_term(
            all,
            currency@,
            amount,
        ));
        while i < self.entries.len() && !text::same(
            self.entries[i].0.as_str(),
            currency.as_str(),
        ) && !text::comes_before(currency.as_str(), self.entries[i].0.as_str())
            invariant
                i <= self.entries@.len(),
                all == self@,
                with_term(all, currency@, amount) == all.take(i as int) + with_term(
                    all.skip(i as int),
                    currency@,
                    amount,
                ),
            decreases self.entries.len() - i,
        {
            proof {
                let rest = all.skip(i as int);
                assert(rest[0] == all[i as int]);
                assert(rest.skip(1) =~= all.skip(i + 1));
                assert(all.take(i as int) + (seq![rest[0]] + with_term(
                    rest.skip(1),
                    currency@,
                    amount,
                )) =~= all.take(i + 1) + with_term(all.skip(i + 1), currency@, amount));
            }
            i += 1;
        }
        let ghost rest = all.skip(i as int);
        if i < self.entries.len() && text::same(self.entries[i].0.as_str(), currency.as_str()) {
            let mut entry = self.entries.remove(i);
            let ghost terms = entry.1@;
            entry.1.push(amount);
            self.entries.insert(i, entry);
            proof {
                assert(rest[0] == all[i as int]);
                assert(terms == all[i as int].1);
                assert(self@ =~= all.take(i as int) + rest.update(
                    0,
                    (currency@, rest[0].1.push(amount)),
                ));
            }
        } else {
            let mut terms: Vec<Rate> = Vec::new();
            terms.push(amount);
            assert(terms@ =~= seq![amount]);
            self.entries.insert(i, (text::owned(currency.as_str()), terms));
            proof {
                assert(self@ =~= all.take(i as int) + (seq![(currency@, seq![amount])] + rest));
                if i < all.len() {
                    assert(rest[0] == all[i as int]);
                } else {
                    assert(rest =~= Seq::empty());
                    assert(seq![(currency@, seq![amount])] + rest =~= seq![
                        (currency@, seq![amount]),
                    ]);
                }
            }
        }
    }
}

proof fn lemma_get_front(
    front: (Seq<char>, Seq<Rate>),
    rest: Seq<(Seq<char>, Seq<Rate>)>,
    code: Seq<char>,
)
    ensures
        model::get(seq![front] + rest, code) == if front.0 == code {
            Some(front.1)
        } else {
            model::get(rest, code)
        },
{
    let all = seq![front] + rest;
    model::lemma_index_from(all, code, 0);
    model::lemma_index_from(rest, code, 0);
    assert(all[0] == front);
    assert(forall|k: int| 0 <= k < rest.len() ==> #[trigger] rest[k] == all[k + 1]);
    match model::index_from(all, code, 0) {
        Some(i) => {
            if front.0 != code {
                assert(rest[i - 1].0 == code);
                let j = model::index_from(rest, code, 0)->Some_0;
                assert(rest[j] == all[j + 1]);
                if j < i - 1 {
                    assert(all[j + 1].0 != code);
                }
            }
        },
        None => {
            if model::index_from(rest, code, 0) is Some {
                let j = model::index_from(rest, code, 0)->Some_0;
                assert(all[j + 1].0 == code);
            }
        },
    }
}

/// Adding an amount changes the bucket of its currency by that one term, and no
/// other bucket.
pub proof fn term_goes_to_its_currency(
    buckets: Seq<(Seq<char>, Seq<Rate>)>,
    code: Seq<char>,
    amount: Rate,
    other: Seq<char>,
)
    requires
        in_code_order(buckets),
    ensures
        model::get(with_term(buckets, code, amount), other) == if other == code {
            Some(
                match model::get(buckets, code) {
                    Some(terms) => terms.push(amount),
                    None => seq![amount],
                },
            )
        } else {
            model::get(buckets, other)
        },
    decreases buckets.len(),
{
    let fresh = (code, seq![amount]);
    if buckets.len() == 0 {
        assert(seq![fresh] =~= seq![fresh] + buckets);
        lemma_get_front(fresh, buckets, other);
    } else {
        let rest = buckets.skip(1);
        assert(buckets =~= seq![buckets[0]] + rest);
        lemma_get_front(buckets[0], rest, other);
        lemma_get_front(buckets[0], rest, code);
        if buckets[0].0 == code {
            let changed = (code, buckets[0].1.push(amount));
            assert(with_term(buckets, code, amount) =~= seq![changed] + rest);
            lemma_get_front(changed, rest, other);
        } else if text::before(code, buckets[0].0) {
            lemma_get_front(fresh, buckets, other);
            assert(model::get(buckets, code) is None) by {
                model::lemma_index_from(buckets, code, 0);
                if let Some(i) = model::index_from(buckets, code, 0) {
                    if i > 0 {
                        text::lemma_before_transitive(code, buckets[0].0, buckets[i].0);
                    }
                    text::lemma_before_irreflexive(code);
                }
            }
        } else {
            assert forall|i: int, j: int| 0 <= i < j < rest.len() implies text::before(
                (#[trigger] rest[i]).0,
                (#[trigger] rest[j]).0,
            ) by {
                assert(rest[i] == buckets[i + 1]);
                assert(rest[j] == buckets[j + 1]);
            }
            term_goes_to_its_currency(rest, code, amount, other);
            lemma_get_front(buckets[0], with_term(rest, code, amount), other);
        }
    }
}

/// The first code of the amounts with one more term is the first before or the
/// new one.
proof fn lemma_first_code(buckets: Seq<(Seq<char>, Seq<Rate>)>, code: Seq<char>, amount: Rate)
    ensures
        with_term(buckets, code, amount).len() > 0,
        with_term(buckets, code, amount)[0].0 == code || (buckets.len() > 0 && with_term(
            buckets,
            code,
            amount,
        )[0].0 == buckets[0].0),
{
}

/// Adding an amount keeps the codes in ascending order.
pub proof fn term_keeps_code_order(
    buckets: Seq<(Seq<char>, Seq<Rate>)>,
    code: Seq<char>,
    amount: Rate,
)
    requires
        in_code_order(buckets),
    ensures
        in_code_order(with_term(buckets, code, amount)),
    decreases buckets.len(),
{
    let after = with_term(buckets, code, amount);
    if buckets.len() > 0 {
        let rest = buckets.skip(1);
        if buckets[0].0 == code {
            assert forall|i: int, j: int| 0 <= i < j < after.len() implies text::before(
                (#[trigger] after[i]).0,
                (#[trigger] after[j]).0,
            ) by {
                assert(after[i].0 == buckets[i].0);
                assert(after[j].0 == buckets[j].0);
            }
        } else if text::before(code, buckets[0].0) {
            assert forall|i: int, j: int| 0 <= i < j < after.len() implies text::before(
                (#[trigger] after[i]).0,
                (#[trigger] after[j]).0,
            ) by {
                assert(after[j] == buckets[j - 1]);
                if i > 0 {
                    assert(after[i] == buckets[i - 1]);
                } else if j > 1 {
                    text::lemma_before_transitive(code, buckets[0].0, buckets[j - 1].0);
                }
            }
        } else {
            assert forall|i: int, j: int| 0 <= i < j < rest.len() implies text::before(
                (#[trigger] rest[i]).0,
                (#[trigger] rest[j]).0,
            ) by {
                assert(rest[i] == buckets[i + 1]);
                assert(rest[j] == buckets[j + 1]);
            }
            term_keeps_code_order(rest, code, amount);
            lemma_first_code(rest, code, amount);
            let tail = with_term(rest, code, amount);
            text::lemma_before_total(code, buckets[0].0);
            assert(text::before(buckets[0].0, tail[0].0)) by {
                if tail[0].0 != code {
                    assert(rest[0] == buckets[1]);
                }
            }
            assert forall|i: int, j: int| 0 <= i < j < after.len() implies text::before(
                (#[trigger] after[i]).0,
                (#[trigger] after[j]).0,
            ) by {
                assert(after[j] == tail[j - 1]);
                if i > 0 {
                    assert(after[i] == tail[i - 1]);
                } else if j > 1 {
                    text::lemma_before_transitive(buckets[0].0, tail[0].0, tail[j - 1].0);
                }
            }
        }
    }
}

/// A window's single figure, kept next to its buckets for readers that know
/// nothing else.
#[derive(Debug, Clone, Copy, PartialEq, Eq, Structural)]
pub enum Figure {
    /// A number that was read or set.
    Number(Rate),
    /// The sum of the window's buckets, in the order of their codes.
    SumOfBuckets,
}

impl Figure {
    /// The figure of a window without spending.
    pub open spec fn zero() -> Figure {
        Figure::Number(Rate { bits: 0 })
    }

    /// The number, where there is one other than zero.
    pub open spec fn legacy(self) -> Option<Rate> {
        match self {
            Figure::Number(rate) => if rate.magnitude() != 0 {
                Some(rate)
            } else {
                None
            },
            Figure::SumOfBuckets => None,
        }
    }

    fn legacy_number(&self) -> (r: Option<Rate>)
        ensures
            r == self.legacy(),
    {
        match self {
            Figure::Number(rate) => if rate.bits % 0x8000_0000_0000_0000 != 0 {
                Some(*rate)
            } else {
                None
            },
            Figure::SumOfBuckets => None,
        }
    }
}

/// Spend accumulated for one credential: one bucket per window and currency.
///
/// Each window also has a figure, the plain sum of its buckets. An older reader
/// knows only the figures and drops the buckets when it writes the ledger back;
/// with the figures the totals survive that, as a USD bucket.
#[derive(Debug)]
pub struct ProviderSpend {
    /// `YYYY-MM-DD` that the day buckets belong to.
    pub day_date: String,
    pub day: Buckets,
    pub day_usd: Figure,
    /// `YYYY-MM` that the month buckets belong to.
    pub month: String,
    pub month_spend: Buckets,
    pub month_usd: Figure,
    pub all_time: Buckets,
    pub all_time_usd: Figure,
}

/// A window: its buckets and its figure.
#[verifier::ext_equal]
pub struct WindowView {
    pub buckets: Seq<(Seq<char>, Seq<Rate>)>,
    pub figure: Figure,
}

#[verifier::ext_equal]
pub struct SpendView {
    pub day_date: Seq<char>,
    pub day: WindowView,
    pub month: Seq<char>,
    pub month_spend: WindowView,
    pub all_time: WindowView,
}

impl View for ProviderSpend {
    type V = SpendView;

    open spec fn view(&self) -> SpendView {
        SpendView {
            day_date: self.day_date@,
            day: WindowView { buckets: self.day@, figure: self.day_usd },
            month: self.month@,
            month_spend: WindowView { buckets: self.month_spend@, figure: self.month_usd },
            all_time: WindowView { buckets: self.all_time@, figure: self.all_time_usd },
        }
    }
}

impl WindowView {
    /// The window without spending.
    pub open spec fn empty() -> WindowView {
        WindowView { buckets: Seq::empty(), figure: Figure::zero() }
    }

    /// The window with one more amount; its figure is the sum again.
    pub open spec fn plus(self, code: Seq<char>, amount: Rate) -> WindowView {
        WindowView {
            buckets: with_term(self.buckets, code, amount),
            figure: Figure::SumOfBuckets,
        }
    }

    /// The window with a figure that stands alone turned into a USD bucket.
    pub open spec fn migrated(self) -> WindowView {
        if self.buckets.len() == 0 && self.figure.legacy() is Some {
            WindowView {
                buckets: seq![(crate::currency::usd_code(), seq![self.figure.legacy()->Some_0])],
                figure: self.figure,
            }
        } else {
            self
        }
    }

    /// A window without buckets has no figure but zero.
    pub open spec fn consistent(self) -> bool {
        self.buckets.len() == 0 ==> self.figure.legacy() is None
    }
}

impl SpendView {
    pub open spec fn none() -> SpendView {
        SpendView {
            day_date: Seq::empty(),
            day: WindowView::empty(),
            month: Seq::empty(),
            month_spend: WindowView::empty(),
            all_time: WindowView::empty(),
        }
    }

    pub open spec fn plus(self, code: Seq<char>, amount: Rate) -> SpendView {
        SpendView {
            day: self.day.plus(code, amount),
            month_spend: self.month_spend.plus(code, amount),
            all_time: self.all_time.plus(code, amount),
            ..self
        }
    }

    pub open spec fn migrated(self) -> SpendView {
        SpendView {
            day: self.day.migrated(),
            month_spend: self.month_spend.migrated(),
            all_time: self.all_time.migrated(),
            ..self
        }
    }

    /// The spending with the windows of another day or month cleared.
    pub open spec fn rolled(self, day: Seq<char>, month: Seq<char>) -> SpendView {
        SpendView {
            day_date: day,
            day: if self.day_date == day {
                self.day
            } else {
                WindowView::empty()
            },
            month,
            month_spend: if self.month == month {
                self.month_spend
            } else {
                WindowView::empty()
            },
            all_time: self.all_time,
        }
    }

    pub open spec fn consistent(self) -> bool {
        self.day.consistent() && self.month_spend.consistent() && self.all_time.consistent()
    }
}

impl Clone for ProviderSpend {
    fn clone(&self) -> (r: Self)
        ensures
            r@ == self@,
    {
        ProviderSpend {
            day_date: self.day_date.clone(),
            day: self.day.clone(),
            day_usd: self.day_usd,
            month: self.month.clone(),
            month_spend: self.month_spend.clone(),
            month_usd: self.month_usd,
            all_time: self.all_time.clone(),
            all_time_usd: self.all_time_usd,
        }
    }
}

impl Default for ProviderSpend {
    fn default() -> (r: Self)
        ensures
            r@ == SpendView::none(),
    {
        let r = ProviderSpend {
            day_date: String::new(),
            day: Buckets::new(),
            day_usd: Figure::Number(Rate { bits: 0 }),
            month: String::new(),
            month_spend: Buckets::new(),
            month_usd: Figure::Number(Rate { bits: 0 }),
            all_time: Buckets::new(),
            all_time_usd: Figure::Number(Rate { bits: 0 }),
        };
        assert(r@ =~= SpendView::none());
        r
    }
}

/// A figure that stands alone becomes a USD bucket.
fn migrate_window(buckets: &mut Buckets, figure: &Figure)
    ensures
        (WindowView { buckets: final(buckets)@, figure: *figure }) == (WindowView {
            buckets: old(buckets)@,
            figure: *figure,
        }).migrated(),
{
    if buckets.is_empty() {
        if let Some(number) = figure.legacy_number() {
            let usd = Currency::usd();
            assert(buckets@ =~= Seq::empty());
            buckets.add_term(&usd, number);
        }
    }
}

impl ProviderSpend {
    /// Add an amount to every window.
    pub fn accrue(&mut self, currency: &Currency, amount: Rate)
        ensures
            final(self)@ == old(self)@.plus(currency@, amount),
    {
        self.day.add_term(currency, amount);
        self.month_spend.add_term(currency, amount);
        self.all_time.add_term(currency, amount);
        self.refresh_usd_mirrors();
    }

    /// Make each figure the sum of its buckets.
    pub fn refresh_usd_mirrors(&mut self)
        ensures
            final(self)@ == (SpendView {
                day: WindowView { figure: Figure::SumOfBuckets, ..old(self)@.day },
                month_spend: WindowView {
                    figure: Figure::SumOfBuckets,
                    ..old(self)@.month_spend
                },
                all_time: WindowView { figure: Figure::SumOfBuckets, ..old(self)@.all_time },
                ..old(self)@
            }),
    {
        self.day_usd = Figure::SumOfBuckets;
        self.month_usd = Figure::SumOfBuckets;
        self.all_time_usd = Figure::SumOfBuckets;
    }

    /// Turn the figures of a ledger that has no buckets into USD buckets.
    pub fn migrate_legacy_usd_figures(&mut self)
        ensures
            final(self)@ == old(self)@.migrated(),
    {
        migrate_window(&mut self.day, &self.day_usd);
        migrate_window(&mut self.month_spend, &self.month_usd);
        migrate_window(&mut self.all_time, &self.all_time_usd);
    }
}

/// Clear the windows that belong to another day or month.
pub fn roll_spend(spend: &mut ProviderSpend, labels: &WindowLabels)
    ensures
        final(spend)@ == old(spend)@.rolled(labels.day@, labels.month@),
{
    if !text::same(spend.day_date.as_str(), labels.day.as_str()) {
        spend.day_date = labels.day.clone();
        spend.day = Buckets::new();
        spend.day_usd = Figure::Number(Rate { bits: 0 });
        assert(spend.day@ =~= Seq::empty());
    }
    if !text::same(spend.month.as_str(), labels.month.as_str()) {
        spend.month = labels.month.clone();
        spend.month_spend = Buckets::new();
        spend.month_usd = Figure::Number(Rate { bits: 0 });
        assert(spend.month_spend@ =~= Seq::empty());
    }
    assert(spend@ =~= old(spend)@.rolled(labels.day@, labels.month@));
}

/// A window is cleared whole, buckets and figure together, exactly when its
/// label is another one; what was spent altogether stays.
pub proof fn roll_clears_whole_windows(spend: SpendView, day: Seq<char>, month: Seq<char>)
    ensures
        ({
            let after = spend.rolled(day, month);
            &&& after.day == spend.day || after.day == WindowView::empty()
            &&& spend.day_date == day ==> after.day == spend.day
            &&& spend.day_date != day ==> after.day == WindowView::empty()
            &&& spend.month == month ==> after.month_spend == spend.month_spend
            &&& spend.month != month ==> after.month_spend == WindowView::empty()
            &&& after.all_time == spend.all_time
            &&& after.day_date == day
            &&& after.month == month
        }),
{
}

/// Rolling twice to the same day and month is rolling once.
pub proof fn roll_is_idempotent(spend: SpendView, day: Seq<char>, month: Seq<char>)
    ensures
        spend.rolled(day, month).rolled(day, month) == spend.rolled(day, month),
{
}

/// No operation leaves a figure other than zero next to no buckets, so that one
/// read back that way can only be an older writer's.
pub proof fn operations_keep_windows_consistent(
    spend: SpendView,
    code: Seq<char>,
    amount: Rate,
    day: Seq<char>,
    month: Seq<char>,
)
    ensures
        spend.plus(code, amount).consistent(),
        spend.migrated().consistent(),
        spend.consistent() ==> spend.rolled(day, month).consistent(),
        SpendView::none().consistent(),
{
    lemma_first_code(spend.day.buckets, code, amount);
    lemma_first_code(spend.month_spend.buckets, code, amount);
    lemma_first_code(spend.all_time.buckets, code, amount);
    assert(Figure::zero().legacy() is None);
}

/// What is consistent is not migrated: reading a ledger again does not count its
/// money twice.
pub proof fn migration_happens_once(spend: SpendView)
    ensures
        spend.migrated().migrated() == spend.migrated(),
        spend.consistent() ==> spend.migrated() == spend,
{
}

/// An older writer drops the buckets and keeps the figures. The totals survive
/// that as USD buckets.
pub proof fn totals_survive_an_older_writer(spend: SpendView, total: Rate)
    requires
        total.magnitude() != 0,
        spend.all_time == (WindowView { buckets: Seq::empty(), figure: Figure::Number(total) }),
    ensures
        spend.migrated().all_time.buckets == seq![(crate::currency::usd_code(), seq![total])],
{
}

/// An amount goes to the bucket of its own currency in every window, and no
/// other bucket changes: nothing is converted.
pub proof fn spending_stays_in_its_currency(
    spend: SpendView,
    code: Seq<char>,
    amount: Rate,
    other: Seq<char>,
)
    requires
        in_code_order(spend.all_time.buckets),
        other != code,
    ensures
        model::get(spend.plus(code, amount).all_time.buckets, other) == model::get(
            spend.all_time.buckets,
            other,
        ),
        model::get(spend.plus(code, amount).all_time.buckets, code) == Some(
            match model::get(spend.all_time.buckets, code) {
                Some(terms) => terms.push(amount),
                None => seq![amount],
            },
        ),
{
    term_goes_to_its_currency(spend.all_time.buckets, code, amount, other);
    term_goes_to_its_currency(spend.all_time.buckets, code, amount, code);
}

/// What the ledger holds about one source key.
#[derive(Debug)]
pub struct ProviderActivityEntry {
    pub last_used_unix_secs: Option<u64>,
    pub spend: Option<ProviderSpend>,
}

#[verifier::ext_equal]
pub struct ActivityView {
    pub last_used_unix_secs: Option<u64>,
    pub spend: Option<SpendView>,
}

impl View for ProviderActivityEntry {
    type V = ActivityView;

    open spec fn view(&self) -> ActivityView {
        ActivityView {
            last_used_unix_secs: self.last_used_unix_secs,
            spend: model::opt_view(self.spend),
        }
    }
}

impl ActivityView {
    pub open spec fn none() -> ActivityView {
        ActivityView { last_used_unix_secs: None, spend: None }
    }

    pub open spec fn migrated(self) -> ActivityView {
        ActivityView {
            spend: match self.spend {
                Some(spend) => Some(spend.migrated()),
                None => None,
            },
            ..self
        }
    }

    pub open spec fn rolled(self, day: Seq<char>, month: Seq<char>) -> ActivityView {
        ActivityView {
            spend: match self.spend {
                Some(spend) => Some(spend.rolled(day, month)),
                None => None,
            },
            ..self
        }
    }
}

impl Clone for ProviderActivityEntry {
    fn clone(&self) -> (r: Self)
        ensures
            r@ == self@,
    {
        ProviderActivityEntry {
            last_used_unix_secs: self.last_used_unix_secs,
            spend: match &self.spend {
                Some(spend) => Some(spend.clone()),
                None => None,
            },
        }
    }
}

impl Default for ProviderActivityEntry {
    fn default() -> (r: Self)
        ensures
            r@ == ActivityView::none(),
    {
        ProviderActivityEntry { last_used_unix_secs: None, spend: None }
    }
}

/// The whole ledger. Each source key has one entry: see [`StoreView::wf`].
#[derive(Debug)]
pub struct ProviderActivityStore {
    pub schema_version: u32,
    pub entries: Vec<(String, ProviderActivityEntry)>,
}

#[verifier::ext_equal]
pub struct StoreView {
    pub schema_version: u32,
    pub entries: Seq<(Seq<char>, ActivityView)>,
}

impl View for ProviderActivityStore {
    type V = StoreView;

    open spec fn view(&self) -> StoreView {
        StoreView {
            schema_version: self.schema_version,
            entries: model::keyed_view(self.entries@),
        }
    }
}

impl Default for ProviderActivityStore {
    fn default() -> (r: Self)
        ensures
            r@ == (StoreView {
                schema_version: PROVIDER_ACTIVITY_SCHEMA_VERSION,
                entries: Seq::empty(),
            }),
            r@.wf(),
    {
        let r = ProviderActivityStore {
            schema_version: PROVIDER_ACTIVITY_SCHEMA_VERSION,
            entries: Vec::new(),
        };
        assert(r@.entries =~= Seq::empty());
        r
    }
}

impl StoreView {
    /// Each source key has one entry.
    pub open spec fn wf(self) -> bool {
        model::distinct_keys(self.entries)
    }

    /// What the ledger holds about a key, which is nothing where it has no entry.
    pub open spec fn entry(self, key: Seq<char>) -> ActivityView {
        match model::get(self.entries, key) {
            Some(entry) => entry,
            None => ActivityView::none(),
        }
    }

    /// The ledger in its current shape, whatever shape it was read in.
    pub open spec fn migrated(self) -> StoreView {
        StoreView {
            schema_version: PROVIDER_ACTIVITY_SCHEMA_VERSION,
            entries: self.entries.map_values(
                |e: (Seq<char>, ActivityView)| (e.0, e.1.migrated()),
            ),
        }
    }
}

impl ProviderActivityStore {
    /// Bring a ledger that was read up to the current shape. The version alone
    /// does not tell its shape: an older writer drops the version too.
    pub fn migrate_legacy_usd_figures(&mut self)
        ensures
            final(self)@ == old(self)@.migrated(),
            old(self)@.wf() ==> final(self)@.wf(),
    {
        let ghost before = self@;
        self.schema_version = PROVIDER_ACTIVITY_SCHEMA_VERSION;
        let mut done: Vec<(String, ProviderActivityEntry)> = Vec::new();
        let mut i: usize = 0;
        while i < self.entries.len()
            invariant
                i <= self.entries@.len(),
                self.schema_version == PROVIDER_ACTIVITY_SCHEMA_VERSION,
                before.entries == model::keyed_view(self.entries@),
                done@.len() == i,
                forall|k: int|
                    0 <= k < i ==> (#[trigger] done@[k]).0@ == before.entries[k].0 && done@[k].1@
                        == before.entries[k].1.migrated(),
            decreases self.entries.len() - i,
        {
            assert(before.entries[i as int] == (
                self.entries@[i as int].0@,
                self.entries@[i as int].1@,
            ));
            let spend = match &self.entries[i].1.spend {
                Some(spend) => {
                    let mut spend = spend.clone();
                    spend.migrate_legacy_usd_figures();
                    Some(spend)
                },
                None => None,
            };
            let entry = ProviderActivityEntry {
                last_used_unix_secs: self.entries[i].1.last_used_unix_secs,
                spend,
            };
            assert(entry@ =~= before.entries[i as int].1.migrated());
            done.push((self.entries[i].0.clone(), entry));
            i += 1;
        }
        self.entries = done;
        assert(self@.entries =~= before.migrated().entries);
        assert(forall|k: int|
            0 <= k < self@.entries.len() ==> (#[trigger] self@.entries[k]).0
                == before.entries[k].0);
    }
}

/// Whether a use is too close to the last one to be written.
pub open spec fn throttled(last_used: Option<u64>, now: u64) -> bool {
    match last_used {
        Some(previous) => now - previous < LAST_USED_WRITE_THROTTLE_SECS,
        None => false,
    }
}

/// Whether recording a use changes the ledger.
pub open spec fn use_counts(store: StoreView, source_key: Seq<char>, now: u64) -> bool {
    let key = text::trimmed(source_key);
    key.len() > 0 && !throttled(store.entry(key).last_used_unix_secs, now)
}

/// The ledger after a use was recorded.
pub open spec fn used(store: StoreView, source_key: Seq<char>, now: u64) -> StoreView {
    let key = text::trimmed(source_key);
    if use_counts(store, source_key, now) {
        StoreView {
            entries: model::put_in(
                store.entries,
                key,
                ActivityView { last_used_unix_secs: Some(now), ..store.entry(key) },
            ),
            ..store
        }
    } else {
        store
    }
}

/// Record a successful use of a credential, and say whether the ledger has to
/// be written.
pub fn record_use(store: &mut ProviderActivityStore, source_key: &str, now: u64) -> (changed: bool)
    ensures
        final(store)@ == used(old(store)@, source_key@, now),
        old(store)@.wf() ==> final(store)@.wf(),
        changed == use_counts(old(store)@, source_key@, now),
{
    let ghost before = store@;
    let key = text::trim(source_key);
    let letters = text::chars_of(key);
    if letters.len() == 0 {
        return false;
    }
    let mut entry = match model::find_view(&store.entries, key) {
        Some(entry) => entry.clone(),
        None => ProviderActivityEntry::default(),
    };
    assert(entry@ == before.entry(key@));
    if let Some(previous) = entry.last_used_unix_secs {
        if now < previous || now - previous < LAST_USED_WRITE_THROTTLE_SECS {
            return false;
        }
    }
    entry.last_used_unix_secs = Some(now);
    assert(entry@ =~= (ActivityView { last_used_unix_secs: Some(now), ..before.entry(key@) }));
    proof {
        if before.wf() {
            model::put_keeps_keys_distinct(before.entries, key@, entry@);
        }
    }
    model::put(&mut store.entries, key, entry);
    true
}

/// Whether recording an amount changes the ledger: a key, and a number above
/// zero.
pub open spec fn spend_counts(source_key: Seq<char>, amount: Rate) -> bool {
    text::trimmed(source_key).len() > 0 && amount.positive()
}

/// The spending of an entry with one more amount.
pub open spec fn spent_entry(
    entry: ActivityView,
    amount: Rate,
    code: Seq<char>,
    now: u64,
    day: Seq<char>,
    month: Seq<char>,
) -> ActivityView {
    let spend = match entry.spend {
        Some(spend) => spend,
        None => SpendView::none(),
    };
    ActivityView {
        last_used_unix_secs: Some(now),
        spend: Some(spend.rolled(day, month).plus(code, amount)),
    }
}

/// The ledger after an amount was recorded.
pub open spec fn spent(
    store: StoreView,
    source_key: Seq<char>,
    amount: Rate,
    code: Seq<char>,
    now: u64,
    day: Seq<char>,
    month: Seq<char>,
) -> StoreView {
    let key = text::trimmed(source_key);
    if spend_counts(source_key, amount) {
        StoreView {
            entries: model::put_in(
                store.entries,
                key,
                spent_entry(store.entry(key), amount, code, now, day, month),
            ),
            ..store
        }
    } else {
        store
    }
}

/// Accumulate an amount for a credential in its own currency, and say whether
/// the ledger has to be written. Spending implies use.
pub fn record_spend(
    store: &mut ProviderActivityStore,
    source_key: &str,
    amount: Rate,
    currency: &Currency,
    now: u64,
    labels: &WindowLabels,
) -> (changed: bool)
    ensures
        final(store)@ == spent(
            old(store)@,
            source_key@,
            amount,
            currency@,
            now,
            labels.day@,
            labels.month@,
        ),
        old(store)@.wf() ==> final(store)@.wf(),
        changed == spend_counts(source_key@, amount),
{
    let ghost before = store@;
    let key = text::trim(source_key);
    let letters = text::chars_of(key);
    if letters.len() == 0 || !amount.is_positive() {
        return false;
    }
    let mut spend = match model::find_view(&store.entries, key) {
        Some(entry) => match &entry.spend {
            Some(spend) => spend.clone(),
            None => ProviderSpend::default(),
        },
        None => ProviderSpend::default(),
    };
    roll_spend(&mut spend, labels);
    spend.accrue(currency, amount);
    let entry = ProviderActivityEntry { last_used_unix_secs: Some(now), spend: Some(spend) };
    assert(entry@ =~= spent_entry(
        before.entry(key@),
        amount,
        currency@,
        now,
        labels.day@,
        labels.month@,
    ));
    proof {
        if before.wf() {
            model::put_keeps_keys_distinct(before.entries, key@, entry@);
        }
    }
    model::put(&mut store.entries, key, entry);
    true
}

/// What is recorded about one key changes nothing about any other.
pub proof fn keys_do_not_interfere(
    store: StoreView,
    source_key: Seq<char>,
    amount: Rate,
    code: Seq<char>,
    now: u64,
    day: Seq<char>,
    month: Seq<char>,
    other: Seq<char>,
)
    requires
        other != text::trimmed(source_key),
    ensures
        spent(store, source_key, amount, code, now, day, month).entry(other) == store.entry(other),
        used(store, source_key, now).entry(other) == store.entry(other),
{
    let key = text::trimmed(source_key);
    model::put_then_get(
        store.entries,
        key,
        spent_entry(store.entry(key), amount, code, now, day, month),
        other,
    );
    model::put_then_get(
        store.entries,
        key,
        ActivityView { last_used_unix_secs: Some(now), ..store.entry(key) },
        other,
    );
}

/// A use that counts is what is read back, and so is the use that spending
/// implies.
pub proof fn recorded_use_is_read_back(
    store: StoreView,
    source_key: Seq<char>,
    amount: Rate,
    code: Seq<char>,
    now: u64,
    day: Seq<char>,
    month: Seq<char>,
)
    ensures
        use_counts(store, source_key, now) ==> used(store, source_key, now).entry(
            text::trimmed(source_key),
        ).last_used_unix_secs == Some(now),
        spend_counts(source_key, amount) ==> spent(
            store,
            source_key,
            amount,
            code,
            now,
            day,
            month,
        ).entry(text::trimmed(source_key)).last_used_unix_secs == Some(now),
{
    let key = text::trimmed(source_key);
    model::put_then_get(
        store.entries,
        key,
        spent_entry(store.entry(key), amount, code, now, day, month),
        key,
    );
    model::put_then_get(
        store.entries,
        key,
        ActivityView { last_used_unix_secs: Some(now), ..store.entry(key) },
        key,
    );
}

/// A second use within the throttle changes nothing.
pub proof fn busy_key_is_written_once(
    store: StoreView,
    source_key: Seq<char>,
    first: u64,
    second: u64,
)
    requires
        use_counts(store, source_key, first),
        second < first + LAST_USED_WRITE_THROTTLE_SECS,
    ensures
        !use_counts(used(store, source_key, first), source_key, second),
        used(used(store, source_key, first), source_key, second) == used(
            store,
            source_key,
            first,
        ),
{
    let key = text::trimmed(source_key);
    model::put_then_get(
        store.entries,
        key,
        ActivityView { last_used_unix_secs: Some(first), ..store.entry(key) },
        key,
    );
}

/// A ledger in its current shape is not changed by bringing it up to date.
pub proof fn migrating_the_ledger_is_idempotent(store: StoreView)
    ensures
        store.migrated().migrated() == store.migrated(),
{
    let once = store.migrated();
    assert forall|i: int| 0 <= i < store.entries.len() implies #[trigger] once.migrated().entries[i]
        == once.entries[i] by {
        if let Some(spend) = store.entries[i].1.spend {
            migration_happens_once(spend);
        }
    }
    assert(once.migrated().entries =~= once.entries);
}

/// Whether a copy of the ledger of an age is too old to answer queries.
pub fn needs_reload(age_nanos: Option<u64>) -> (r: bool)
    ensures
        r == match age_nanos {
            Some(age) => age > QUERY_RELOAD_TTL_NANOS,
            None => true,
        },
{
    match age_nanos {
        Some(age) => age > QUERY_RELOAD_TTL_NANOS,
        None => true,
    }
}

/// When a credential was last used.
pub fn last_used_unix_secs(store: &ProviderActivityStore, source_key: &str) -> (r: Option<u64>)
    ensures
        r == store@.entry(source_key@).last_used_unix_secs,
{
    match model::find_view(&store.entries, source_key) {
        Some(entry) => entry.last_used_unix_secs,
        None => None,
    }
}

/// What was spent through a credential, with the windows rolled to the given
/// day and month.
pub fn spend_snapshot(store: &ProviderActivityStore, source_key: &str, labels: &WindowLabels) -> (r:
    Option<ProviderSpend>)
    ensures
        model::opt_view(r) == store@.entry(source_key@).rolled(labels.day@, labels.month@).spend,
{
    match model::find_view(&store.entries, source_key) {
        Some(entry) => match &entry.spend {
            Some(spend) => {
                let mut spend = spend.clone();
                roll_spend(&mut spend, labels);
                Some(spend)
            },
            None => None,
        },
        None => None,
    }
}

/// By source key.
impl Ranked for (String, ProviderActivityEntry) {
    open spec fn precedes(a: (Seq<char>, ActivityView), b: (Seq<char>, ActivityView)) -> bool {
        text::before(a.0, b.0)
    }

    proof fn lemma_one_way(a: (Seq<char>, ActivityView), b: (Seq<char>, ActivityView)) {
        if text::before(b.0, a.0) {
            text::lemma_before_transitive(a.0, b.0, a.0);
            text::lemma_before_irreflexive(a.0);
        }
    }

    proof fn lemma_carries_over(
        a: (Seq<char>, ActivityView),
        b: (Seq<char>, ActivityView),
        c: (Seq<char>, ActivityView),
    ) {
        order::lemma_text_carries_over(a.0, b.0, c.0);
    }

    fn goes_before(&self, other: &Self) -> (r: bool) {
        text::comes_before(self.0.as_str(), other.0.as_str())
    }
}

/// All ledger entries by source key, with the windows rolled. Each key comes
/// before the next.
pub fn all_entries(store: &ProviderActivityStore, labels: &WindowLabels) -> (r: Vec<
    (String, ProviderActivityEntry),
>)
    ensures
        order::in_order::<(String, ProviderActivityEntry)>(model::seq_view(r@)),
        model::seq_view(r@).to_multiset() == store@.entries.map_values(
            |e: (Seq<char>, ActivityView)| (e.0, e.1.rolled(labels.day@, labels.month@)),
        ).to_multiset(),
        store@.wf() ==> keys_ascend(model::seq_view(r@)),
{
    let ghost all = store@.entries;
    let mut out: Vec<(String, ProviderActivityEntry)> = Vec::new();
    let mut i: usize = 0;
    while i < store.entries.len()
        invariant
            i <= store.entries@.len(),
            all == model::keyed_view(store.entries@),
            out@.len() == i,
            forall|k: int|
                0 <= k < i ==> (#[trigger] out@[k]).0@ == all[k].0 && out@[k].1@
                    == all[k].1.rolled(labels.day@, labels.month@),
        decreases store.entries.len() - i,
    {
        assert(all[i as int] == (store.entries@[i as int].0@, store.entries@[i as int].1@));
        let spend = match &store.entries[i].1.spend {
            Some(spend) => {
                let mut spend = spend.clone();
                roll_spend(&mut spend, labels);
                Some(spend)
            },
            None => None,
        };
        let entry = ProviderActivityEntry {
            last_used_unix_secs: store.entries[i].1.last_used_unix_secs,
            spend,
        };
        assert(entry@ =~= all[i as int].1.rolled(labels.day@, labels.month@));
        out.push((store.entries[i].0.clone(), entry));
        i += 1;
    }
    assert(model::seq_view(out@) =~= all.map_values(
        |e: (Seq<char>, ActivityView)| (e.0, e.1.rolled(labels.day@, labels.month@)),
    ));
    let ghost unsorted = model::seq_view(out@);
    let r = order::sorted(out);
    proof {
        if store@.wf() {
            assert forall|i: int, j: int| 0 <= i < j < unsorted.len() implies (
            #[trigger] unsorted[i]).0 != (#[trigger] unsorted[j]).0 by {
                assert(all[i].0 != all[j].0);
            }
            model::reordering_keeps_keys_distinct(unsorted, model::seq_view(r@));
            lemma_keys_ascend(model::seq_view(r@));
        }
    }
    r
}

/// Each key comes before the next.
pub open spec fn keys_ascend(entries: Seq<(Seq<char>, ActivityView)>) -> bool {
    forall|i: int, j: int|
        0 <= i < j < entries.len() ==> text::before((#[trigger] entries[i]).0, (
        #[trigger] entries[j]).0)
}

proof fn lemma_keys_ascend(entries: Seq<(Seq<char>, ActivityView)>)
    requires
        order::in_order::<(String, ProviderActivityEntry)>(entries),
        model::distinct_keys(entries),
    ensures
        keys_ascend(entries),
{
    assert forall|i: int, j: int| 0 <= i < j < entries.len() implies text::before(
        (#[trigger] entries[i]).0,
        (#[trigger] entries[j]).0,
    ) by {
        assert(!<(String, ProviderActivityEntry)>::precedes(entries[j], entries[i]));
        assert(entries[i].0 != entries[j].0);
        text::lemma_before_total(entries[i].0, entries[j].0);
    }
}

/// An amount is added to each of the three windows, to the bucket of its own
/// currency there. The figure of each becomes the sum of its buckets, and the
/// labels stay.
pub proof fn spending_counts_in_every_window(spend: SpendView, code: Seq<char>, amount: Rate)
    requires
        in_code_order(spend.day.buckets),
        in_code_order(spend.month_spend.buckets),
        in_code_order(spend.all_time.buckets),
    ensures
        ({
            let after = spend.plus(code, amount);
            let added = |old: Seq<(Seq<char>, Seq<Rate>)>, new: Seq<(Seq<char>, Seq<Rate>)>|
                match model::get(old, code) {
                    Some(terms) => model::get(new, code) == Some(terms.push(amount)),
                    None => model::get(new, code) == Some(seq![amount]),
                };
            &&& added(spend.day.buckets, after.day.buckets)
            &&& added(spend.month_spend.buckets, after.month_spend.buckets)
            &&& added(spend.all_time.buckets, after.all_time.buckets)
            &&& forall|other: Seq<char>|
                other != code ==> #[trigger] model::get(after.day.buckets, other) == model::get(
                    spend.day.buckets,
                    other,
                ) && model::get(after.month_spend.buckets, other) == model::get(
                    spend.month_spend.buckets,
                    other,
                ) && model::get(after.all_time.buckets, other) == model::get(
                    spend.all_time.buckets,
                    other,
                )
            &&& after.day.figure == Figure::SumOfBuckets
            &&& after.month_spend.figure == Figure::SumOfBuckets
            &&& after.all_time.figure == Figure::SumOfBuckets
            &&& after.day_date == spend.day_date
            &&& after.month == spend.month
        }),
{
    term_goes_to_its_currency(spend.day.buckets, code, amount, code);
    term_goes_to_its_currency(spend.month_spend.buckets, code, amount, code);
    term_goes_to_its_currency(spend.all_time.buckets, code, amount, code);
    let after = spend.plus(code, amount);
    assert forall|other: Seq<char>| other != code implies #[trigger] model::get(
        after.day.buckets,
        other,
    ) == model::get(spend.day.buckets, other) && model::get(after.month_spend.buckets, other)
        == model::get(spend.month_spend.buckets, other) && model::get(
        after.all_time.buckets,
        other,
    ) == model::get(spend.all_time.buckets, other) by {
        term_goes_to_its_currency(spend.day.buckets, code, amount, other);
        term_goes_to_its_currency(spend.month_spend.buckets, code, amount, other);
        term_goes_to_its_currency(spend.all_time.buckets, code, amount, other);
    }
}

/// A window that an older writer left with a figure and no buckets has the
/// figure as its amount in dollars, and the figure stays. Every other window, and
/// both labels, stay as they are.
pub proof fn older_figures_become_dollar_amounts(spend: SpendView)
    ensures
        ({
            let after = spend.migrated();
            let older = |w: WindowView|
                w.buckets.len() == 0 && w.figure is Number && w.figure->Number_0.bits
                    % 0x8000_0000_0000_0000 != 0;
            let moved = |old: WindowView, new: WindowView|
                if older(old) {
                    new.buckets.len() == 1 && new.buckets[0].0 == "USD"@ && new.buckets[0].1.len()
                        == 1 && new.buckets[0].1[0] == old.figure->Number_0 && new.figure
                        == old.figure
                } else {
                    new == old
                };
            &&& moved(spend.day, after.day)
            &&& moved(spend.month_spend, after.month_spend)
            &&& moved(spend.all_time, after.all_time)
            &&& after.day_date == spend.day_date
            &&& after.month == spend.month
        }),
{
}

/// A cleared window has no buckets and the figure zero.
pub proof fn cleared_window_holds_nothing()
    ensures
        WindowView::empty().buckets.len() == 0,
        WindowView::empty().figure == Figure::Number(Rate { bits: 0 }),
        SpendView::none().day == WindowView::empty(),
        SpendView::none().month_spend == WindowView::empty(),
        SpendView::none().all_time == WindowView::empty(),
        SpendView::none().day_date.len() == 0,
        SpendView::none().month.len() == 0,
{
}

/// What is recorded as spent for a key is read back there: a first amount of a
/// day or a month stands alone in that window, a further one is added to what the
/// window holds, and the total always grows by it.
pub proof fn spending_is_read_back(
    store: StoreView,
    source_key: Seq<char>,
    amount: Rate,
    code: Seq<char>,
    now: u64,
    day: Seq<char>,
    month: Seq<char>,
    earlier: SpendView,
)
    requires
        text::trimmed(source_key).len() > 0,
        amount.positive(),
        store.entry(text::trimmed(source_key)).spend == Some(earlier),
        in_code_order(earlier.day.buckets),
        in_code_order(earlier.month_spend.buckets),
        in_code_order(earlier.all_time.buckets),
    ensures
        ({
            let found = spent(store, source_key, amount, code, now, day, month).entry(
                text::trimmed(source_key),
            );
            let after = found.spend->Some_0;
            let had = |w: WindowView|
                match model::get(w.buckets, code) {
                    Some(terms) => terms,
                    None => Seq::empty(),
                };
            &&& found.last_used_unix_secs == Some(now)
            &&& found.spend is Some
            &&& after.day_date == day
            &&& after.month == month
            &&& model::get(after.all_time.buckets, code) == Some(
                had(earlier.all_time).push(amount),
            )
            &&& earlier.day_date == day ==> model::get(after.day.buckets, code) == Some(
                had(earlier.day).push(amount),
            )
            &&& earlier.day_date != day ==> after.day.buckets == seq![(code, seq![amount])]
            &&& earlier.month == month ==> model::get(after.month_spend.buckets, code) == Some(
                had(earlier.month_spend).push(amount),
            )
            &&& earlier.month != month ==> after.month_spend.buckets == seq![(code, seq![amount])]
        }),
{
    let key = text::trimmed(source_key);
    model::put_then_get(
        store.entries,
        key,
        spent_entry(store.entry(key), amount, code, now, day, month),
        key,
    );
    term_goes_to_its_currency(earlier.day.buckets, code, amount, code);
    term_goes_to_its_currency(earlier.month_spend.buckets, code, amount, code);
    term_goes_to_its_currency(earlier.all_time.buckets, code, amount, code);
    assert(Seq::<Rate>::empty().push(amount) =~= seq![amount]);
}

/// The first amount that is spent for a key stands alone in every window.
pub proof fn first_spending_stands_alone(
    store: StoreView,
    source_key: Seq<char>,
    amount: Rate,
    code: Seq<char>,
    now: u64,
    day: Seq<char>,
    month: Seq<char>,
)
    requires
        text::trimmed(source_key).len() > 0,
        amount.positive(),
        store.entry(text::trimmed(source_key)).spend is None,
    ensures
        ({
            let found = spent(store, source_key, amount, code, now, day, month).entry(
                text::trimmed(source_key),
            );
            let only = seq![(code, seq![amount])];
            &&& found.last_used_unix_secs == Some(now)
            &&& found.spend is Some
            &&& found.spend->Some_0.day.buckets == only
            &&& found.spend->Some_0.month_spend.buckets == only
            &&& found.spend->Some_0.all_time.buckets == only
            &&& found.spend->Some_0.day_date == day
            &&& found.spend->Some_0.month == month
        }),
{
    let key = text::trimmed(source_key);
    model::put_then_get(
        store.entries,
        key,
        spent_entry(store.entry(key), amount, code, now, day, month),
        key,
    );
}

/// A key of nothing but white space, and an amount that is not a positive
/// number, are not recorded.
pub proof fn nothing_is_recorded_for_nothing(
    store: StoreView,
    source_key: Seq<char>,
    amount: Rate,
    code: Seq<char>,
    now: u64,
    day: Seq<char>,
    month: Seq<char>,
)
    ensures
        text::trimmed(source_key).len() == 0 || amount.bits == 0 || amount.signed()
            || !amount.finite() ==> spent(store, source_key, amount, code, now, day, month)
            == store,
        text::trimmed(source_key).len() == 0 ==> used(store, source_key, now) == store,
        spent(store, source_key, amount, code, now, day, month).schema_version
            == store.schema_version,
        used(store, source_key, now).schema_version == store.schema_version,
{
}

/// A use is written down when the last one is half a minute old or older, or
/// there was none; it leaves the spending alone. Within half a minute nothing
/// is written.
pub proof fn use_is_written_every_half_minute(
    store: StoreView,
    source_key: Seq<char>,
    now: u64,
)
    requires
        text::trimmed(source_key).len() > 0,
    ensures
        ({
            let key = text::trimmed(source_key);
            let last = store.entry(key).last_used_unix_secs;
            let after = used(store, source_key, now).entry(key);
            &&& last is None ==> after.last_used_unix_secs == Some(now)
            &&& last is Some && last->Some_0 + 30 <= now ==> after.last_used_unix_secs == Some(now)
            &&& last is Some && last->Some_0 + 30 > now ==> used(store, source_key, now) == store
            &&& after.spend == store.entry(key).spend
        }),
{
    let key = text::trimmed(source_key);
    model::put_then_get(
        store.entries,
        key,
        ActivityView { last_used_unix_secs: Some(now), ..store.entry(key) },
        key,
    );
}

/// Bringing a ledger up to date stamps its version on it and keeps every key,
/// in place, with the time of its last use.
pub proof fn updating_keeps_every_entry(store: StoreView, i: int)
    requires
        0 <= i < store.entries.len(),
    ensures
        store.migrated().schema_version == 2,
        store.migrated().entries.len() == store.entries.len(),
        store.migrated().entries[i].0 == store.entries[i].0,
        store.migrated().entries[i].1.last_used_unix_secs
            == store.entries[i].1.last_used_unix_secs,
        store.entries[i].1.spend is None ==> store.migrated().entries[i].1.spend is None,
        store.entries[i].1.spend matches Some(spend) ==> store.migrated().entries[i].1.spend
            == Some(spend.migrated()),
{
}

/// A key that nothing was recorded for has neither a last use nor spending.
pub proof fn unknown_key_has_no_activity(store: StoreView, key: Seq<char>)
    requires
        forall|i: int| 0 <= i < store.entries.len() ==> (#[trigger] store.entries[i]).0 != key,
    ensures
        store.entry(key).last_used_unix_secs is None,
        store.entry(key).spend is None,
{
    model::lemma_index_from(store.entries, key, 0);
}

/// Rolling an entry to a day and a month rolls its spending, where it has any,
/// and keeps the time of its last use.
pub proof fn rolling_keeps_the_last_use(entry: ActivityView, day: Seq<char>, month: Seq<char>)
    ensures
        entry.rolled(day, month).last_used_unix_secs == entry.last_used_unix_secs,
        entry.spend is None ==> entry.rolled(day, month).spend is None,
        entry.spend matches Some(spend) ==> entry.rolled(day, month).spend == Some(
            spend.rolled(day, month),
        ),
{
}

/// A kept copy of the ledger answers queries for two seconds.
pub proof fn kept_ledger_counts_for_two_seconds()
    ensures
        QUERY_RELOAD_TTL_NANOS == 2 * 1_000_000_000,
{
}

} // verus!
