//! Currency-aware rendering of cost figures.
//!
//! Native mode converts nothing: each amount keeps the currency it was priced
//! in. A named currency converts through the FX table, and a missing rate falls
//! back to the native currency with a visible note, never to an invented rate
//! and never to a `$` on an amount that is not in USD.
//!
//! The caller evaluates the quotients of conversions and the sums of rows, and
//! writes the numbers out; which of them there are is decided here.

use crate::currency;
use crate::currency::Currency;
use crate::entry::RuleOutOfEffect;
use crate::fx;
use crate::fx::{Conversion, FxTable, FxView, Money, MoneyView};
use crate::model;
use crate::order;
use crate::order::Ranked;
use crate::rate::Rate;
use crate::rule_types::{PricingConfig, PricingConfigError};
use crate::rules;
use crate::source_registry::OutOfEffectNotice;
use crate::text;
use vstd::prelude::*;

verus! {

/// Which currency costs are shown in, plus the rates needed to get there.
/// Without a target each amount is shown in its own currency.
#[derive(Debug, Clone)]
pub struct DisplayTarget {
    pub target: Option<Currency>,
    pub fx: FxTable,
}

#[verifier::ext_equal]
pub struct TargetView {
    pub target: Option<Seq<char>>,
    pub fx: FxView,
}

impl View for DisplayTarget {
    type V = TargetView;

    open spec fn view(&self) -> TargetView {
        TargetView { target: model::opt_view(self.target), fx: self.fx@ }
    }
}

/// One displayed amount: the number, the currency it is really in, and why it
/// stayed native where the requested conversion was impossible.
#[derive(Debug, Clone)]
pub struct DisplayAmount {
    pub amount: Rate,
    pub currency: Currency,
    pub note: Option<String>,
}

#[verifier::ext_equal]
pub struct AmountView {
    pub amount: Rate,
    pub currency: Seq<char>,
    pub note: Option<Seq<char>>,
}

impl View for DisplayAmount {
    type V = AmountView;

    open spec fn view(&self) -> AmountView {
        AmountView {
            amount: self.amount,
            currency: self.currency@,
            note: model::opt_view(self.note),
        }
    }
}

/// Largest first, and by currency where the amounts are equal.
impl Ranked for DisplayAmount {
    open spec fn precedes(a: AmountView, b: AmountView) -> bool {
        a.amount.rank() > b.amount.rank() || (a.amount.rank() == b.amount.rank() && text::before(
            a.currency,
            b.currency,
        ))
    }

    proof fn lemma_one_way(a: AmountView, b: AmountView) {
        if text::before(a.currency, b.currency) && text::before(b.currency, a.currency) {
            text::lemma_before_transitive(a.currency, b.currency, a.currency);
            text::lemma_before_irreflexive(a.currency);
        }
    }

    proof fn lemma_carries_over(a: AmountView, b: AmountView, c: AmountView) {
        if Self::precedes(c, a) && c.amount.rank() == a.amount.rank() {
            order::lemma_text_carries_over(a.currency, b.currency, c.currency);
        }
    }

    fn goes_before(&self, other: &Self) -> (r: bool) {
        if self.amount.is_above(&other.amount) {
            true
        } else if other.amount.is_above(&self.amount) {
            false
        } else {
            text::comes_before(self.currency.as_str(), other.currency.as_str())
        }
    }
}

impl DisplayAmount {
    /// An amount already in USD, shown as it is.
    pub fn usd(amount: Rate) -> (r: DisplayAmount)
        ensures
            r@ == (AmountView { amount, currency: currency::usd_code(), note: None }),
    {
        DisplayAmount { amount, currency: Currency::usd(), note: None }
    }
}

/// An amount as it is shown, where `quotient` is the value of the quotient that
/// its conversion asks for.
pub open spec fn shown(target: TargetView, money: MoneyView, quotient: Rate) -> AmountView {
    match target.target {
        None => AmountView { amount: money.amount, currency: money.currency, note: None },
        Some(code) => match fx::converted(money, code, target.fx, quotient) {
            Some(m) => AmountView { amount: m.amount, currency: m.currency, note: None },
            None => AmountView {
                amount: money.amount,
                currency: money.currency,
                note: Some("no "@ + code + " rate"@),
            },
        },
    }
}

/// Amounts that are shown in one currency, in the order in which they add up.
#[derive(Debug)]
pub struct MergedRow {
    pub currency: Currency,
    pub parts: Vec<Rate>,
    pub note: Option<String>,
}

#[verifier::ext_equal]
pub struct MergedView {
    pub currency: Seq<char>,
    pub parts: Seq<Rate>,
    pub note: Option<Seq<char>>,
}

impl View for MergedRow {
    type V = MergedView;

    open spec fn view(&self) -> MergedView {
        MergedView {
            currency: self.currency@,
            parts: self.parts@,
            note: model::opt_view(self.note),
        }
    }
}

/// The index of the first row from `from` on in a currency.
pub open spec fn row_from(rows: Seq<MergedView>, currency: Seq<char>, from: int) -> Option<int>
    decreases rows.len() - from,
{
    if from < 0 || from >= rows.len() {
        None
    } else if rows[from].currency == currency {
        Some(from)
    } else {
        row_from(rows, currency, from + 1)
    }
}

/// The rows with one more amount: added to the row of its currency, whose first
/// note stays, or in a row of its own.
pub open spec fn with_amount(rows: Seq<MergedView>, amount: AmountView) -> Seq<MergedView> {
    match row_from(rows, amount.currency, 0) {
        Some(i) => rows.update(
            i,
            MergedView {
                currency: amount.currency,
                parts: rows[i].parts.push(amount.amount),
                note: rules::or_else(rows[i].note, amount.note),
            },
        ),
        None => rows.push(
            MergedView {
                currency: amount.currency,
                parts: seq![amount.amount],
                note: amount.note,
            },
        ),
    }
}

/// The rows of the first `n` amounts.
pub open spec fn merged(amounts: Seq<AmountView>, n: int) -> Seq<MergedView>
    decreases n,
{
    if n <= 0 {
        Seq::empty()
    } else {
        with_amount(merged(amounts, n - 1), amounts[n - 1])
    }
}

/// The buckets as they are shown one by one.
pub open spec fn shown_buckets(
    target: TargetView,
    buckets: Seq<MoneyView>,
    quotients: Seq<Rate>,
) -> Seq<AmountView> {
    Seq::new(buckets.len(), |i: int| shown(target, buckets[i], quotients[i]))
}

/// The rows that buckets are shown in.
pub open spec fn bucket_rows(
    target: TargetView,
    buckets: Seq<MoneyView>,
    quotients: Seq<Rate>,
) -> Seq<MergedView> {
    merged(shown_buckets(target, buckets, quotients), buckets.len() as int)
}

/// Rows with the sums of their amounts.
pub open spec fn summed(rows: Seq<MergedView>, sums: Seq<Rate>) -> Seq<AmountView> {
    Seq::new(
        rows.len(),
        |i: int| AmountView { amount: sums[i], currency: rows[i].currency, note: rows[i].note },
    )
}

fn find_row(rows: &Vec<MergedRow>, currency: &Currency) -> (r: Option<usize>)
    ensures
        match r {
            Some(i) => i < rows@.len() && row_from(model::seq_view(rows@), currency@, 0) == Some(
                i as int,
            ),
            None => row_from(model::seq_view(rows@), currency@, 0) is None,
        },
{
    let ghost all = model::seq_view(rows@);
    let mut i: usize = 0;
    while i < rows.len()
        invariant
            i <= rows@.len(),
            all == model::seq_view(rows@),
            row_from(all, currency@, 0) == row_from(all, currency@, i as int),
        decreases rows.len() - i,
    {
        assert(all[i as int] == rows@[i as int]@);
        if rows[i].currency.is(currency) {
            return Some(i);
        }
        i += 1;
    }
    None
}

fn add_amount(rows: &mut Vec<MergedRow>, amount: DisplayAmount)
    ensures
        model::seq_view(final(rows)@) == with_amount(model::seq_view(old(rows)@), amount@),
{
    let ghost before = model::seq_view(rows@);
    proof {
        lemma_row_from(before, amount.currency@, 0);
    }
    match find_row(rows, &amount.currency) {
        Some(i) => {
            let mut row = rows.remove(i);
            assert(row@ == before[i as int]);
            row.parts.push(amount.amount);
            if row.note.is_none() {
                row.note = amount.note;
            }
            assert(row@ =~= with_amount(before, amount@)[i as int]);
            rows.insert(i, row);
            assert(model::seq_view(rows@) =~= with_amount(before, amount@));
        },
        None => {
            let mut parts: Vec<Rate> = Vec::new();
            parts.push(amount.amount);
            let row = MergedRow { currency: amount.currency, parts, note: amount.note };
            assert(row@.parts =~= seq![amount.amount]);
            rows.push(row);
            assert(model::seq_view(rows@) =~= before.push(row@));
        },
    }
}

impl DisplayTarget {
    /// Show every amount in its own currency.
    pub fn native() -> (r: DisplayTarget)
        ensures
            r@.target is None,
            r@.fx == (FxView { base: currency::usd_code(), rates: Map::empty() }),
    {
        let rates: Vec<(Currency, Rate)> = Vec::new();
        assert(crate::rule_types::coded(rates@) =~= Seq::empty());
        DisplayTarget { target: None, fx: FxTable::new(Currency::usd(), rates) }
    }

    pub fn new(target: Option<Currency>, fx: FxTable) -> (r: DisplayTarget)
        ensures
            r == (DisplayTarget { target, fx }),
    {
        DisplayTarget { target, fx }
    }

    /// The display currency of the config, where `native` names none, with the
    /// FX table of its `[pricing]` section.
    pub fn from_config(display_currency: &str, pricing: &PricingConfig) -> (r: DisplayTarget)
        ensures
            r@ == (TargetView {
                target: if text::lowered(text::trimmed(display_currency@)) == "native"@ {
                    None
                } else {
                    Some(currency::normal_code(display_currency@))
                },
                fx: FxView { base: pricing@.fx_base, rates: pricing@.fx_rates },
            }),
    {
        let word = text::to_lower(text::trim(display_currency));
        let target = if text::same(word.as_str(), "native") {
            None
        } else {
            Some(Currency::new(display_currency))
        };
        DisplayTarget { target, fx: FxTable::from_config(pricing) }
    }

    pub fn target(&self) -> (r: Option<&Currency>)
        ensures
            match r {
                Some(code) => self@.target == Some(code@),
                None => self@.target is None,
            },
    {
        match &self.target {
            Some(code) => Some(code),
            None => None,
        }
    }

    pub fn fx(&self) -> (r: &FxTable)
        ensures
            *r == self.fx,
    {
        &self.fx
    }

    /// The currency to label a zero amount with: the target, otherwise USD.
    pub fn zero_currency(&self) -> (r: Currency)
        ensures
            r@ == match self@.target {
                Some(code) => code,
                None => currency::usd_code(),
            },
    {
        match &self.target {
            Some(code) => code.clone(),
            None => Currency::usd(),
        }
    }

    /// The conversion that showing an amount in `currency` asks for.
    pub fn plan(&self, currency: &Currency) -> (r: Conversion)
        ensures
            r == match self@.target {
                Some(code) => fx::conversion(self@.fx, currency@, code),
                None => Conversion::Same,
            },
    {
        match &self.target {
            Some(code) => fx::plan_conversion(currency, code, &self.fx),
            None => Conversion::Same,
        }
    }

    /// Resolve one amount for display.
    ///
    /// `quotient` is the value of the quotient that [`Self::plan`] asks for.
    /// When the requested conversion is impossible the amount stays in its own
    /// currency, with a note that names the missing rate.
    pub fn resolve(&self, amount: Rate, currency: &Currency, quotient: Rate) -> (r: DisplayAmount)
        ensures
            r@ == shown(self@, MoneyView { amount, currency: currency@ }, quotient),
    {
        let code = match &self.target {
            Some(code) => code,
            None => {
                return DisplayAmount { amount, currency: currency.clone(), note: None };
            },
        };
        let money = Money::new(amount, currency.clone());
        match fx::convert(&money, code, &self.fx, quotient) {
            Some(m) => DisplayAmount { amount: m.amount, currency: m.currency, note: None },
            None => DisplayAmount {
                amount,
                currency: currency.clone(),
                note: Some(text::join3("no ", code.as_str(), " rate")),
            },
        }
    }

    /// The rows that per-currency buckets are shown in. Buckets that resolve to
    /// the same currency share a row; those that cannot be converted stay in
    /// their own currency.
    pub fn merge_buckets(&self, buckets: &Vec<Money>, quotients: &Vec<Rate>) -> (r: Vec<MergedRow>)
        requires
            quotients@.len() == buckets@.len(),
        ensures
            model::seq_view(r@) == bucket_rows(
                self@,
                model::seq_view(buckets@),
                quotients@,
            ),
    {
        let ghost amounts = shown_buckets(self@, model::seq_view(buckets@), quotients@);
        let mut rows: Vec<MergedRow> = Vec::new();
        assert(model::seq_view(rows@) =~= Seq::empty());
        let mut i: usize = 0;
        while i < buckets.len()
            invariant
                i <= buckets@.len(),
                quotients@.len() == buckets@.len(),
                amounts == shown_buckets(self@, model::seq_view(buckets@), quotients@),
                model::seq_view(rows@) == merged(amounts, i as int),
            decreases buckets.len() - i,
        {
            let amount = self.resolve(buckets[i].amount, &buckets[i].currency, quotients[i]);
            assert(amount@ == amounts[i as int]);
            add_amount(&mut rows, amount);
            i += 1;
        }
        rows
    }

    /// Resolve per-currency buckets into display rows, largest first. `sums`
    /// holds the sum of each row of [`Self::merge_buckets`].
    pub fn resolve_buckets(
        &self,
        buckets: &Vec<Money>,
        quotients: &Vec<Rate>,
        sums: &Vec<Rate>,
    ) -> (r: Vec<DisplayAmount>)
        requires
            quotients@.len() == buckets@.len(),
            sums@.len() == bucket_rows(self@, model::seq_view(buckets@), quotients@).len(),
        ensures
            order::in_order::<DisplayAmount>(model::seq_view(r@)),
            model::seq_view(r@).to_multiset() == summed(
                bucket_rows(self@, model::seq_view(buckets@), quotients@),
                sums@,
            ).to_multiset(),
    {
        let merged_rows = self.merge_buckets(buckets, quotients);
        let ghost all = model::seq_view(merged_rows@);
        let mut rows: Vec<DisplayAmount> = Vec::new();
        let mut i: usize = 0;
        while i < merged_rows.len()
            invariant
                i <= merged_rows@.len(),
                all == model::seq_view(merged_rows@),
                sums@.len() == all.len(),
                rows@.len() == i,
                forall|k: int| 0 <= k < i ==> (#[trigger] rows@[k])@ == summed(all, sums@)[k],
            decreases merged_rows.len() - i,
        {
            assert(all[i as int] == merged_rows@[i as int]@);
            rows.push(
                DisplayAmount {
                    amount: sums[i],
                    currency: merged_rows[i].currency.clone(),
                    note: model::copy_text(&merged_rows[i].note),
                },
            );
            i += 1;
        }
        assert(model::seq_view(rows@) =~= summed(all, sums@));
        order::sorted(rows)
    }

    /// [`Self::resolve_buckets`] for a total that may not have billed anything
    /// yet: an empty total is one zero. A display currency names itself; in
    /// native mode there is no currency to name, so the zero has none.
    pub fn resolve_totals(
        &self,
        buckets: &Vec<Money>,
        quotients: &Vec<Rate>,
        sums: &Vec<Rate>,
    ) -> (r: Vec<DisplayAmount>)
        requires
            quotients@.len() == buckets@.len(),
            sums@.len() == bucket_rows(self@, model::seq_view(buckets@), quotients@).len(),
        ensures
            buckets@.len() == 0 ==> model::seq_view(r@) == seq![
                AmountView {
                    amount: Rate { bits: 0 },
                    currency: match self@.target {
                        Some(code) => code,
                        None => Seq::empty(),
                    },
                    note: None,
                },
            ],
            buckets@.len() > 0 ==> order::in_order::<DisplayAmount>(model::seq_view(r@)),
            buckets@.len() > 0 ==> model::seq_view(r@).to_multiset() == summed(
                bucket_rows(self@, model::seq_view(buckets@), quotients@),
                sums@,
            ).to_multiset(),
    {
        if buckets.len() == 0 {
            let currency = match &self.target {
                Some(code) => code.clone(),
                None => Currency { code: String::new() },
            };
            assert(self@.target is None ==> currency@ =~= Seq::empty());
            let mut rows: Vec<DisplayAmount> = Vec::new();
            let row = DisplayAmount { amount: Rate { bits: 0 }, currency, note: None };
            let ghost view = row@;
            rows.push(row);
            assert(model::seq_view(rows@) =~= seq![view]);
            return rows;
        }
        self.resolve_buckets(buckets, quotients, sums)
    }
}

/// The rows with a note on the first, after any note that is already there.
pub open spec fn noted(rows: Seq<AmountView>, note: Seq<char>) -> Seq<AmountView> {
    if rows.len() == 0 {
        rows
    } else {
        rows.update(
            0,
            AmountView {
                note: Some(
                    match rows[0].note {
                        Some(existing) => existing + ", "@ + note,
                        None => note,
                    },
                ),
                ..rows[0]
            },
        )
    }
}

/// Attach a note to the primary (largest) row, keeping any note that is already
/// there. No rows is nothing to do.
pub fn note_primary(rows: &mut Vec<DisplayAmount>, note: &str)
    ensures
        model::seq_view(final(rows)@) == noted(model::seq_view(old(rows)@), note@),
{
    let ghost before = model::seq_view(rows@);
    if rows.len() == 0 {
        return;
    }
    let mut primary = rows.remove(0);
    assert(primary@ == before[0]);
    let words = match &primary.note {
        Some(existing) => text::join3(existing.as_str(), ", ", note),
        None => text::owned(note),
    };
    primary.note = Some(words);
    rows.insert(0, primary);
    assert(model::seq_view(rows@) =~= noted(before, note@));
}

/// Why the price that is shown is not the one that the user's own rules ask for.
#[derive(Debug)]
pub enum PricingNotice {
    /// A hand-written rule is out of effect, and the next layer priced the call.
    RuleOutOfEffect(RuleOutOfEffect),
    /// The same of a rule in a price file, which is named.
    FileOutOfEffect(OutOfEffectNotice),
    /// A card claims the pair but cannot price the call, so nothing was accrued.
    NoPrice,
}

impl PricingNotice {
    /// The note as it is shown.
    pub open spec fn words(self) -> Seq<char> {
        match self {
            PricingNotice::RuleOutOfEffect(reason) => reason.words(),
            PricingNotice::FileOutOfEffect(notice) => notice.reason.words() + " ("@ + notice.owner@
                + ")"@,
            PricingNotice::NoPrice => "configured rule has no price"@,
        }
    }

    pub fn label(&self) -> (r: String)
        ensures
            r@ == self.words(),
    {
        match self {
            PricingNotice::RuleOutOfEffect(reason) => text::owned(reason.label()),
            PricingNotice::FileOutOfEffect(notice) => notice.label(),
            PricingNotice::NoPrice => text::owned("configured rule has no price"),
        }
    }
}

/// Say, on the amount itself, why the cost is not what the user's own config
/// asked for: the notice of the call first, then a rejected section.
pub fn note_pricing_problems(
    rows: &mut Vec<DisplayAmount>,
    notice: Option<&PricingNotice>,
    error: Option<&PricingConfigError>,
)
    ensures
        ({
            let before = model::seq_view(old(rows)@);
            let first = match notice {
                Some(notice) => noted(before, notice.words()),
                None => before,
            };
            model::seq_view(final(rows)@) == match error {
                Some(error) => noted(first, "invalid [pricing]: "@ + error@.field_path),
                None => first,
            }
        }),
{
    if let Some(notice) = notice {
        let label = notice.label();
        note_primary(rows, label.as_str());
    }
    if let Some(error) = error {
        let label = text::join2("invalid [pricing]: ", error.field_path.as_str());
        note_primary(rows, label.as_str());
    }
}

/// A number with the currency it is in: the bare number where there is no
/// currency, a `$` for USD, and the code before it for every other one.
pub open spec fn labelled(number: Seq<char>, currency: Seq<char>) -> Seq<char> {
    if currency.len() == 0 {
        number
    } else if currency == currency::usd_code() {
        "$"@ + number
    } else {
        currency + " "@ + number
    }
}

/// Format one amount, whose number is written out, with the currency it is
/// actually in. No symbol but `$` is used: none is unambiguous.
pub fn format_amount(number: &str, currency: &Currency) -> (r: String)
    ensures
        r@ == labelled(number@, currency@),
{
    if text::same(currency.as_str(), "") {
        proof {
            reveal_strlit("");
        }
        text::owned(number)
    } else {
        proof {
            reveal_strlit("");
            assert(currency@.len() == 0 ==> currency@ =~= ""@);
        }
        if currency.is_usd() {
            text::join2("$", number)
        } else {
            text::join3(currency.as_str(), " ", number)
        }
    }
}

/// The one-line summary of rows, where `number` is the primary amount written
/// out.
pub open spec fn summary(rows: Seq<AmountView>, number: Seq<char>) -> Seq<char> {
    if rows.len() == 0 {
        Seq::empty()
    } else {
        labelled(number, rows[0].currency) + match rows[0].note {
            Some(note) => " ("@ + note + ")"@,
            None => Seq::empty(),
        } + if rows.len() > 1 {
            " +"@ + text::decimal((rows.len() - 1) as nat) + " more"@
        } else {
            Seq::empty()
        }
    }
}

/// One-line summary of display rows: the primary amount, followed by a count
/// when there is more than one currency. Rows are ordered largest first, as
/// [`DisplayTarget::resolve_buckets`] returns them.
pub fn summarize(rows: &Vec<DisplayAmount>, number: &str) -> (r: String)
    ensures
        r@ == summary(model::seq_view(rows@), number@),
{
    let ghost all = model::seq_view(rows@);
    if rows.len() == 0 {
        let out = String::new();
        assert(out@ =~= Seq::empty());
        return out;
    }
    assert(all[0] == rows@[0]@);
    let out = format_amount(number, &rows[0].currency);
    let note = match &rows[0].note {
        Some(note) => text::join3(" (", note.as_str(), ")"),
        None => String::new(),
    };
    assert(rows@[0].note is None ==> note@ =~= Seq::empty());
    let rest = if rows.len() > 1 {
        let n = text::decimal_text((rows.len() - 1) as u128);
        text::join3(" +", n.as_str(), " more")
    } else {
        String::new()
    };
    assert(rows@.len() == 1 ==> rest@ =~= Seq::empty());
    text::join3(out.as_str(), note.as_str(), rest.as_str())
}

/// In native mode an amount is shown as it was recorded, whatever its currency.
pub proof fn native_mode_leaves_every_currency_alone(
    target: TargetView,
    money: MoneyView,
    quotient: Rate,
)
    requires
        target.target is None,
    ensures
        shown(target, money, quotient) == (AmountView {
            amount: money.amount,
            currency: money.currency,
            note: None,
        }),
{
}

/// An amount that cannot be converted is not changed, and says so; no other
/// amount has a note.
pub proof fn note_marks_exactly_the_unconverted(
    target: TargetView,
    money: MoneyView,
    quotient: Rate,
)
    ensures
        ({
            let row = shown(target, money, quotient);
            &&& row.note is Some ==> row.amount == money.amount && row.currency == money.currency
                && target.target is Some && target.target != Some(money.currency)
            &&& row.note is None && target.target is Some ==> Some(row.currency) == target.target
        }),
{
}

/// No amount that is not in USD is shown with a dollar sign before it: its text
/// begins with its own code.
pub proof fn dollar_sign_means_usd(number: Seq<char>, currency: Seq<char>)
    requires
        currency.len() > 0,
        currency != currency::usd_code(),
    ensures
        text::begins(labelled(number, currency), currency),
{
    assert(labelled(number, currency).take(currency.len() as int) =~= currency);
}

proof fn lemma_row_from(rows: Seq<MergedView>, currency: Seq<char>, from: int)
    requires
        0 <= from,
    ensures
        match row_from(rows, currency, from) {
            Some(i) => from <= i < rows.len() && rows[i].currency == currency,
            None => forall|k: int| from <= k < rows.len() ==> (#[trigger] rows[k]).currency
                != currency,
        },
    decreases rows.len() - from,
{
    if from < rows.len() && rows[from].currency != currency {
        lemma_row_from(rows, currency, from + 1);
    }
}

/// Each currency has one row.
pub proof fn rows_have_distinct_currencies(amounts: Seq<AmountView>, n: int)
    requires
        0 <= n <= amounts.len(),
    ensures
        forall|i: int, j: int|
            0 <= i < j < merged(amounts, n).len() ==> (#[trigger] merged(amounts, n)[i]).currency
                != (#[trigger] merged(amounts, n)[j]).currency,
    decreases n,
{
    if n > 0 {
        rows_have_distinct_currencies(amounts, n - 1);
        let before = merged(amounts, n - 1);
        let after = merged(amounts, n);
        lemma_row_from(before, amounts[n - 1].currency, 0);
        assert forall|i: int, j: int| 0 <= i < j < after.len() implies (#[trigger] after[i]).currency
            != (#[trigger] after[j]).currency by {
            if j < before.len() {
                assert(after[i].currency == before[i].currency);
                assert(after[j].currency == before[j].currency);
            } else {
                assert(after[i].currency == before[i].currency);
            }
        }
    }
}

/// The order that buckets are shown in is a property of the buckets: there is
/// one order by amount and currency.
pub proof fn display_order_is_determined(
    target: TargetView,
    buckets: Seq<MoneyView>,
    quotients: Seq<Rate>,
    sums: Seq<Rate>,
    a: Seq<AmountView>,
    b: Seq<AmountView>,
)
    requires
        order::in_order::<DisplayAmount>(a),
        order::in_order::<DisplayAmount>(b),
        a.to_multiset() == summed(bucket_rows(target, buckets, quotients), sums).to_multiset(),
        b.to_multiset() == summed(bucket_rows(target, buckets, quotients), sums).to_multiset(),
    ensures
        a == b,
{
    broadcast use vstd::seq_lib::group_to_multiset_ensures;

    let rows = bucket_rows(target, buckets, quotients);
    let all = summed(rows, sums);
    rows_have_distinct_currencies(
        shown_buckets(target, buckets, quotients),
        buckets.len() as int,
    );
    assert forall|x: AmountView, y: AmountView|
        a.contains(x) && a.contains(y) && x != y implies #[trigger] DisplayAmount::precedes(x, y)
        || DisplayAmount::precedes(y, x) by {
        assert(all.to_multiset().count(x) > 0);
        assert(all.to_multiset().count(y) > 0);
        assert(all.contains(x) && all.contains(y));
        let i = choose|i: int| 0 <= i < all.len() && all[i] == x;
        let j = choose|j: int| 0 <= j < all.len() && all[j] == y;
        assert(rows[i].currency != rows[j].currency);
        text::lemma_before_total(x.currency, y.currency);
    }
    order::order_is_determined::<DisplayAmount>(a, b);
}

/// How many amounts the rows hold.
pub open spec fn parts_in(rows: Seq<MergedView>) -> nat
    decreases rows.len(),
{
    if rows.len() == 0 {
        0
    } else {
        parts_in(rows.drop_last()) + rows.last().parts.len()
    }
}

proof fn lemma_parts_update(rows: Seq<MergedView>, at: int, row: MergedView)
    requires
        0 <= at < rows.len(),
        row.parts.len() == rows[at].parts.len() + 1,
    ensures
        parts_in(rows.update(at, row)) == parts_in(rows) + 1,
    decreases rows.len(),
{
    let after = rows.update(at, row);
    if at == rows.len() - 1 {
        assert(after.drop_last() =~= rows.drop_last());
    } else {
        lemma_parts_update(rows.drop_last(), at, row);
        assert(after.drop_last() =~= rows.drop_last().update(at, row));
        assert(after.last() == rows.last());
    }
}

/// No amount is lost and none is counted twice: the rows hold one part for each
/// amount.
pub proof fn every_amount_is_counted_once(amounts: Seq<AmountView>, n: int)
    requires
        0 <= n <= amounts.len(),
    ensures
        parts_in(merged(amounts, n)) == n,
    decreases n,
{
    if n > 0 {
        every_amount_is_counted_once(amounts, n - 1);
        let before = merged(amounts, n - 1);
        let amount = amounts[n - 1];
        lemma_row_from(before, amount.currency, 0);
        match row_from(before, amount.currency, 0) {
            Some(i) => {
                lemma_parts_update(before, i, merged(amounts, n)[i]);
            },
            None => {
                assert(merged(amounts, n).drop_last() =~= before);
            },
        }
    }
}

/// The amounts in a currency among the first `n`, in order.
pub open spec fn amounts_in(amounts: Seq<AmountView>, n: int, currency: Seq<char>) -> Seq<Rate>
    decreases n,
{
    if n <= 0 {
        Seq::empty()
    } else if amounts[n - 1].currency == currency {
        amounts_in(amounts, n - 1, currency).push(amounts[n - 1].amount)
    } else {
        amounts_in(amounts, n - 1, currency)
    }
}

/// A row holds exactly the amounts of its currency, in their order, and every
/// currency that some amount is in has a row.
pub proof fn row_holds_the_amounts_of_its_currency(
    amounts: Seq<AmountView>,
    n: int,
    currency: Seq<char>,
)
    requires
        0 <= n <= amounts.len(),
    ensures
        match row_from(merged(amounts, n), currency, 0) {
            Some(i) => {
                &&& 0 <= i < merged(amounts, n).len()
                &&& merged(amounts, n)[i].currency == currency
                &&& merged(amounts, n)[i].parts == amounts_in(amounts, n, currency)
                &&& amounts_in(amounts, n, currency).len() > 0
            },
            None => amounts_in(amounts, n, currency).len() == 0,
        },
    decreases n,
{
    lemma_row_from(merged(amounts, n), currency, 0);
    if n > 0 {
        row_holds_the_amounts_of_its_currency(amounts, n - 1, currency);
        rows_have_distinct_currencies(amounts, n - 1);
        rows_have_distinct_currencies(amounts, n);
        let before = merged(amounts, n - 1);
        let after = merged(amounts, n);
        let amount = amounts[n - 1];
        lemma_row_from(before, currency, 0);
        lemma_row_from(before, amount.currency, 0);
        match row_from(before, amount.currency, 0) {
            Some(i) => {
                assert forall|k: int| 0 <= k < after.len() implies (#[trigger] after[k]).currency
                    == before[k].currency by {}
                match row_from(before, currency, 0) {
                    Some(k) => {
                        assert(after[k].currency == currency);
                        let j = row_from(after, currency, 0)->Some_0;
                        assert(after[j].currency == currency);
                        assert(j == k);
                        if currency == amount.currency {
                            assert(before[i].currency == before[k].currency);
                            assert(i == k);
                        } else {
                            assert(after[k] == before[k]);
                        }
                    },
                    None => {
                        assert(before[i].currency != currency);
                        assert forall|k: int| 0 <= k < after.len() implies (
                        #[trigger] after[k]).currency != currency by {
                            assert(before[k].currency != currency);
                        }
                        assert(row_from(after, currency, 0) is None);
                    },
                }
            },
            None => {
                let last = before.len() as int;
                assert(after[last].currency == amount.currency);
                assert forall|k: int| 0 <= k < last implies #[trigger] after[k] == before[k] by {}
                match row_from(before, currency, 0) {
                    Some(k) => {
                        assert(after[k].currency == currency);
                        let j = row_from(after, currency, 0)->Some_0;
                        assert(after[j].currency == currency);
                        assert(j == k);
                        assert(before[k].currency != amount.currency);
                    },
                    None => {
                        if currency == amount.currency {
                            let j = row_from(after, currency, 0)->Some_0;
                            assert(after[j].currency == currency);
                            assert(j == last);
                            assert(amounts_in(amounts, n, currency) =~= seq![amount.amount]);
                        } else {
                            assert forall|k: int| 0 <= k < after.len() implies (
                            #[trigger] after[k]).currency != currency by {
                                if k < last {
                                    assert(before[k].currency != currency);
                                }
                            }
                            assert(row_from(after, currency, 0) is None);
                        }
                    },
                }
            },
        }
    }
}

/// In a target currency an amount is the quotient in that currency, an amount
/// that is in it already stays as it is, and one that cannot be converted keeps
/// its own figure and says which rate is missing.
pub proof fn target_mode_shows_the_target_or_says_why_not(
    target: TargetView,
    code: Seq<char>,
    money: MoneyView,
    quotient: Rate,
)
    requires
        target.target == Some(code),
    ensures
        ({
            let row = shown(target, money, quotient);
            let rate_of = |c: Seq<char>|
                c == target.fx.base || target.fx.rates.contains_key(c)
                    && target.fx.rates[c].positive();
            let possible = rate_of(money.currency) && rate_of(code) && quotient.finite();
            &&& money.currency == code ==> row.amount == money.amount && row.currency == code
                && row.note is None
            &&& money.currency != code && possible ==> row.amount == quotient && row.currency
                == code && row.note is None
            &&& money.currency != code && !possible ==> row.amount == money.amount && row.currency
                == money.currency && row.note == Some("no "@ + code + " rate"@)
        }),
{
}

/// Each bucket is shown as one amount, from its own money and quotient.
pub proof fn each_bucket_is_shown(
    target: TargetView,
    buckets: Seq<MoneyView>,
    quotients: Seq<Rate>,
    i: int,
)
    requires
        0 <= i < buckets.len(),
    ensures
        shown_buckets(target, buckets, quotients).len() == buckets.len(),
        shown_buckets(target, buckets, quotients)[i] == shown(target, buckets[i], quotients[i]),
        target.target is None ==> shown_buckets(target, buckets, quotients)[i].amount
            == buckets[i].amount && shown_buckets(target, buckets, quotients)[i].currency
            == buckets[i].currency,
{
}

/// The note of a row is the first that one of its amounts has.
pub proof fn row_has_the_first_note_of_its_amounts(
    amounts: Seq<AmountView>,
    n: int,
    row: int,
)
    requires
        0 <= n <= amounts.len(),
        0 <= row < merged(amounts, n).len(),
    ensures
        ({
            let at = merged(amounts, n)[row];
            match at.note {
                Some(note) => exists|k: int|
                    0 <= k < n && (#[trigger] amounts[k]).currency == at.currency && amounts[k].note
                        == Some(note) && forall|j: int|
                        0 <= j < k && (#[trigger] amounts[j]).currency == at.currency
                            ==> amounts[j].note is None,
                None => forall|k: int|
                    0 <= k < n && (#[trigger] amounts[k]).currency == at.currency
                        ==> amounts[k].note is None,
            }
        }),
    decreases n,
{
    if n > 0 {
        let before = merged(amounts, n - 1);
        let after = merged(amounts, n);
        let last = amounts[n - 1];
        lemma_row_from(before, last.currency, 0);
        rows_have_distinct_currencies(amounts, n - 1);
        if row < before.len() {
            row_has_the_first_note_of_its_amounts(amounts, n - 1, row);
            assert(after[row].currency == before[row].currency);
            let c = after[row].currency;
            if last.currency == c {
                assert(row_from(before, last.currency, 0) == Some(row));
                match before[row].note {
                    Some(note) => {
                        assert(after[row].note == Some(note));
                    },
                    None => {
                        assert(after[row].note == last.note);
                        if last.note is Some {
                            assert(amounts[n - 1].currency == c);
                        }
                    },
                }
            } else {
                assert(after[row] == before[row]);
                match before[row].note {
                    Some(note) => {},
                    None => {},
                }
            }
        } else {
            assert(row_from(before, last.currency, 0) is None);
            assert(after[row].currency == last.currency);
            assert(after[row].note == last.note);
            assert forall|j: int| 0 <= j < n - 1 implies (#[trigger] amounts[j]).currency
                != last.currency by {
                row_holds_the_amounts_of_its_currency(amounts, n - 1, last.currency);
                lemma_amounts_in_none(amounts, n - 1, last.currency, j);
            }
            if last.note is Some {
                assert(amounts[n - 1].currency == last.currency);
            }
        }
    }
}

proof fn lemma_amounts_in_none(amounts: Seq<AmountView>, n: int, currency: Seq<char>, j: int)
    requires
        0 <= j < n <= amounts.len(),
        amounts_in(amounts, n, currency).len() == 0,
    ensures
        amounts[j].currency != currency,
    decreases n,
{
    if j < n - 1 {
        lemma_amounts_in_none(amounts, n - 1, currency, j);
    }
}

/// A row is shown with its own sum, currency and note.
pub proof fn row_is_shown_with_its_sum(rows: Seq<MergedView>, sums: Seq<Rate>, i: int)
    requires
        0 <= i < rows.len(),
    ensures
        summed(rows, sums).len() == rows.len(),
        summed(rows, sums)[i].amount == sums[i],
        summed(rows, sums)[i].currency == rows[i].currency,
        summed(rows, sums)[i].note == rows[i].note,
{
}

/// The rows are shown with the largest amount first, and equal amounts in the
/// order of their codes.
pub proof fn largest_amount_is_shown_first(rows: Seq<AmountView>, i: int, j: int)
    requires
        order::in_order::<DisplayAmount>(rows),
        0 <= i < j < rows.len(),
    ensures
        rows[i].amount.rank() >= rows[j].amount.rank(),
        rows[i].amount.rank() == rows[j].amount.rank() ==> !text::before(
            rows[j].currency,
            rows[i].currency,
        ),
{
}

/// A notice is put on the first row, after a note that it has, and changes
/// nothing else.
pub proof fn notice_goes_to_the_first_row(rows: Seq<AmountView>, note: Seq<char>, i: int)
    requires
        0 <= i < rows.len(),
    ensures
        noted(rows, note).len() == rows.len(),
        noted(rows, note)[i].amount == rows[i].amount,
        noted(rows, note)[i].currency == rows[i].currency,
        i > 0 ==> noted(rows, note)[i].note == rows[i].note,
        rows[0].note is None ==> noted(rows, note)[0].note == Some(note),
        rows[0].note matches Some(existing) ==> noted(rows, note)[0].note == Some(
            existing + ", "@ + note,
        ),
        noted(Seq::empty(), note).len() == 0,
{
}

/// Each notice says in words what happened, and one about a file names it.
pub proof fn notices_have_their_words(notice: OutOfEffectNotice)
    ensures
        PricingNotice::NoPrice.words() == "configured rule has no price"@,
        PricingNotice::RuleOutOfEffect(RuleOutOfEffect::Expired).words() == "rule expired"@,
        PricingNotice::RuleOutOfEffect(RuleOutOfEffect::NotYetEffective).words()
            == "rule not in effect yet"@,
        notice.reason == RuleOutOfEffect::Expired ==> PricingNotice::FileOutOfEffect(notice).words()
            == "rule expired"@ + " ("@ + notice.owner@ + ")"@,
        notice.reason == RuleOutOfEffect::NotYetEffective ==> PricingNotice::FileOutOfEffect(
            notice,
        ).words() == "rule not in effect yet"@ + " ("@ + notice.owner@ + ")"@,
{
}

/// An amount in dollars has the dollar sign before it, one in another currency
/// its code and a space, and one without a currency nothing.
pub proof fn amount_is_labelled_with_its_currency(number: Seq<char>, currency: Seq<char>)
    ensures
        labelled(number, "USD"@) == "$"@ + number,
        currency.len() == 0 ==> labelled(number, currency) == number,
        currency.len() > 0 && currency != "USD"@ ==> labelled(number, currency) == currency + " "@
            + number,
{
    reveal_strlit("USD");
}

/// A summary is the first row with its note in brackets, and says how many rows
/// there are besides.
pub proof fn summary_says_how_many_more(rows: Seq<AmountView>, number: Seq<char>)
    ensures
        rows.len() == 0 ==> summary(rows, number).len() == 0,
        rows.len() > 0 ==> text::begins(
            summary(rows, number),
            labelled(number, rows[0].currency),
        ),
        rows.len() == 1 && rows[0].note is None ==> summary(rows, number) == labelled(
            number,
            rows[0].currency,
        ),
        rows.len() == 1 && rows[0].note is Some ==> summary(rows, number) == labelled(
            number,
            rows[0].currency,
        ) + " ("@ + rows[0].note->Some_0 + ")"@,
        rows.len() > 1 ==> text::ends(
            summary(rows, number),
            " +"@ + text::decimal((rows.len() - 1) as nat) + " more"@,
        ),
        rows.len() > 1 ==> summary(rows, number) == summary(rows.take(1), number) + " +"@
            + text::decimal((rows.len() - 1) as nat) + " more"@,
{
    if rows.len() > 0 {
        let first = labelled(number, rows[0].currency);
        let note = match rows[0].note {
            Some(note) => " ("@ + note + ")"@,
            None => Seq::empty(),
        };
        let more = " +"@ + text::decimal((rows.len() - 1) as nat) + " more"@;
        if rows.len() > 1 {
            assert(summary(rows, number) == first + note + more);
            assert(first + note + more =~= first + (note + more));
            text::parts_are_found_again(first, note + more);
            text::parts_are_found_again(first + note, more);
            assert(rows.take(1)[0] == rows[0]);
            assert(summary(rows.take(1), number) =~= first + note);
        } else {
            assert(summary(rows, number) =~= first + note);
            text::parts_are_found_again(first, note);
        }
    }
}

} // verus!
