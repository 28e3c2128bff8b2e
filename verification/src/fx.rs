//! Reference FX conversion: one base currency plus a ratio table.
//!
//! The configured rates are the only source, so a missing rate degrades rather
//! than guesses. Every rate is `1 base = N target`, and any pair is derived
//! through the base: `amount / ratio(from) * ratio(to)`, where the base's own
//! ratio is 1. The caller evaluates that quotient; everything that is decided
//! about it is decided here.

use crate::currency::Currency;
use crate::rate::Rate;
use crate::rule_types;
use crate::rule_types::PricingConfig;
use vstd::prelude::*;

verus! {

/// A base currency plus the table of `1 base = N target`.
#[derive(Debug, Clone)]
pub struct FxTable {
    pub base: Currency,
    /// A later entry replaces an earlier one for the same currency.
    pub rates: Vec<(Currency, Rate)>,
}

#[verifier::ext_equal]
pub struct FxView {
    pub base: Seq<char>,
    pub rates: Map<Seq<char>, Rate>,
}

impl View for FxTable {
    type V = FxView;

    open spec fn view(&self) -> FxView {
        FxView { base: self.base@, rates: rule_types::rate_table(rule_types::coded(self.rates@)) }
    }
}

/// The number 1.
pub open spec fn one() -> Rate {
    Rate { bits: 0x3ff0_0000_0000_0000 }
}

/// Units of a currency per unit of the base: 1 for the base itself, and nothing
/// where the table has no rate or one that is not a positive number.
pub open spec fn ratio_in(fx: FxView, currency: Seq<char>) -> Option<Rate> {
    if currency == fx.base {
        Some(one())
    } else if fx.rates.contains_key(currency) && fx.rates[currency].positive() {
        Some(fx.rates[currency])
    } else {
        None
    }
}

/// A copy of a table's entries.
fn copy_rates(rates: &Vec<(Currency, Rate)>) -> (r: Vec<(Currency, Rate)>)
    ensures
        rule_types::coded(r@) == rule_types::coded(rates@),
{
    let mut out: Vec<(Currency, Rate)> = Vec::new();
    let mut i: usize = 0;
    while i < rates.len()
        invariant
            i <= rates@.len(),
            out@.len() == i,
            forall|k: int| 0 <= k < i ==> out@[k].0@ == rates@[k].0@ && out@[k].1 == rates@[k].1,
        decreases rates.len() - i,
    {
        out.push((rates[i].0.clone(), rates[i].1));
        i += 1;
    }
    assert(rule_types::coded(out@) =~= rule_types::coded(rates@));
    out
}

/// The rate that the table has for a currency.
fn find_rate(rates: &Vec<(Currency, Rate)>, currency: &Currency) -> (r: Option<Rate>)
    ensures
        ({
            let table = rule_types::rate_table(rule_types::coded(rates@));
            match r {
                Some(rate) => table.contains_key(currency@) && table[currency@] == rate,
                None => !table.contains_key(currency@),
            }
        }),
{
    let ghost all = rule_types::coded(rates@);
    let ghost table = rule_types::rate_table(all);
    let mut i: usize = rates.len();
    assert(all.take(i as int) =~= all);
    while i > 0
        invariant
            i <= rates@.len(),
            all == rule_types::coded(rates@),
            table == rule_types::rate_table(all),
            table.contains_key(currency@) == rule_types::rate_table(
                all.take(i as int),
            ).contains_key(currency@),
            table.contains_key(currency@) ==> table[currency@] == rule_types::rate_table(
                all.take(i as int),
            )[currency@],
        decreases i,
    {
        assert(all.take(i as int).drop_last() =~= all.take(i - 1));
        assert(all.take(i as int).last() == all[i - 1]);
        if rates[i - 1].0.is(currency) {
            return Some(rates[i - 1].1);
        }
        i -= 1;
    }
    None
}

impl FxTable {
    pub fn new(base: Currency, rates: Vec<(Currency, Rate)>) -> (r: FxTable)
        ensures
            r == (FxTable { base, rates }),
    {
        FxTable { base, rates }
    }

    /// The table that the `[pricing]` config declares.
    pub fn from_config(pricing: &PricingConfig) -> (r: FxTable)
        ensures
            r@ == (FxView { base: pricing@.fx_base, rates: pricing@.fx_rates }),
    {
        FxTable { base: pricing.fx_base.clone(), rates: copy_rates(&pricing.fx_rates) }
    }

    /// Units of `currency` per 1 base; the base itself is always 1.
    pub fn ratio(&self, currency: &Currency) -> (r: Option<Rate>)
        ensures
            r == ratio_in(self@, currency@),
    {
        if currency.is(&self.base) {
            return Some(Rate { bits: 0x3ff0_0000_0000_0000 });
        }
        match find_rate(&self.rates, currency) {
            Some(rate) => if rate.is_positive() {
                Some(rate)
            } else {
                None
            },
            None => None,
        }
    }

    /// Whether this table can derive `from -> to`.
    pub fn can_convert(&self, from: &Currency, to: &Currency) -> (r: bool)
        ensures
            r == (ratio_in(self@, from@) is Some && ratio_in(self@, to@) is Some),
    {
        self.ratio(from).is_some() && self.ratio(to).is_some()
    }
}

/// An amount with the currency it is in.
#[derive(Debug, Clone)]
pub struct Money {
    pub amount: Rate,
    pub currency: Currency,
}

#[verifier::ext_equal]
pub struct MoneyView {
    pub amount: Rate,
    pub currency: Seq<char>,
}

impl View for Money {
    type V = MoneyView;

    open spec fn view(&self) -> MoneyView {
        MoneyView { amount: self.amount, currency: self.currency@ }
    }
}

impl Money {
    pub fn new(amount: Rate, currency: Currency) -> (r: Money)
        ensures
            r@ == (MoneyView { amount, currency: currency@ }),
    {
        Money { amount, currency }
    }
}

/// How an amount gets from one currency into another.
#[derive(Debug, Clone, Copy, PartialEq, Eq, Structural)]
pub enum Conversion {
    /// The currencies are the same: the amount stays as it is.
    Same,
    /// The amount becomes `amount / from * to`.
    Through { from: Rate, to: Rate },
    /// The table cannot say.
    Impossible,
}

/// How the table gets from one currency into another.
pub open spec fn conversion(fx: FxView, from: Seq<char>, to: Seq<char>) -> Conversion {
    if from == to {
        Conversion::Same
    } else {
        match (ratio_in(fx, from), ratio_in(fx, to)) {
            (Some(from), Some(to)) => Conversion::Through { from, to },
            _ => Conversion::Impossible,
        }
    }
}

/// How to convert an amount in `from` into `target`.
pub fn plan_conversion(from: &Currency, target: &Currency, fx: &FxTable) -> (r: Conversion)
    ensures
        r == conversion(fx@, from@, target@),
{
    if from.is(target) {
        return Conversion::Same;
    }
    match (fx.ratio(from), fx.ratio(target)) {
        (Some(from), Some(to)) => Conversion::Through { from, to },
        _ => Conversion::Impossible,
    }
}

/// What a conversion gives, where `quotient` is the value of
/// `amount / from * to`: an amount that is not finite is no amount.
pub open spec fn converted(
    money: MoneyView,
    target: Seq<char>,
    fx: FxView,
    quotient: Rate,
) -> Option<MoneyView> {
    match conversion(fx, money.currency, target) {
        Conversion::Same => Some(money),
        Conversion::Through { from, to } => if quotient.finite() {
            Some(MoneyView { amount: quotient, currency: target })
        } else {
            None
        },
        Conversion::Impossible => None,
    }
}

/// Convert `money` into `target`, or `None` when a rate is missing.
///
/// `quotient` is the value of the quotient that [`plan_conversion`] asks for;
/// it is not read where none is asked for. `None` means "this table cannot
/// say", never "assume 1:1".
pub fn convert(money: &Money, target: &Currency, fx: &FxTable, quotient: Rate) -> (r: Option<Money>)
    ensures
        crate::model::opt_view(r) == converted(money@, target@, fx@, quotient),
{
    match plan_conversion(&money.currency, target, fx) {
        Conversion::Same => Some(Money { amount: money.amount, currency: money.currency.clone() }),
        Conversion::Through { from: _, to: _ } => if quotient.is_finite() {
            Some(Money { amount: quotient, currency: target.clone() })
        } else {
            None
        },
        Conversion::Impossible => None,
    }
}

/// The base's own ratio is 1, whatever the table says of it.
pub proof fn base_ratio_is_one(fx: FxView)
    ensures
        ratio_in(fx, fx.base) == Some(one()),
{
}

/// A ratio is a positive number.
pub proof fn ratios_are_positive(fx: FxView, currency: Seq<char>)
    requires
        ratio_in(fx, currency) is Some,
    ensures
        ratio_in(fx, currency)->Some_0.positive(),
{
    assert(one().positive()) by {
        assert((0x3ff0_0000_0000_0000int / 0x10_0000_0000_0000) % 0x800 != 0x7ff);
    }
}

/// An amount in its own currency needs no rate at all.
pub proof fn identity_needs_no_rate(money: MoneyView, fx: FxView, quotient: Rate)
    ensures
        converted(money, money.currency, fx, quotient) == Some(money),
{
}

/// Where the way there can be derived, so can the way back, through the same
/// two ratios.
pub proof fn conversion_works_both_ways(fx: FxView, from: Seq<char>, to: Seq<char>)
    ensures
        match conversion(fx, from, to) {
            Conversion::Same => conversion(fx, to, from) == Conversion::Same,
            Conversion::Through { from: a, to: b } => conversion(fx, to, from)
                == (Conversion::Through { from: b, to: a }),
            Conversion::Impossible => conversion(fx, to, from) == Conversion::Impossible,
        },
{
}

/// A missing rate is not guessed: without one nothing but the same currency is
/// converted.
pub proof fn missing_rate_is_not_guessed(
    money: MoneyView,
    target: Seq<char>,
    fx: FxView,
    quotient: Rate,
)
    requires
        money.currency != target,
        ratio_in(fx, money.currency) is None || ratio_in(fx, target) is None,
    ensures
        converted(money, target, fx, quotient) is None,
{
}

/// A conversion divides by what the table says of the currency the amount is in,
/// and multiplies by what it says of the target, where the base counts as 1. Both
/// rates have to be there and to be positive numbers.
pub proof fn conversion_goes_through_the_base(fx: FxView, from: Seq<char>, to: Seq<char>)
    requires
        from != to,
    ensures
        ({
            let usable = |code: Seq<char>|
                code == fx.base || fx.rates.contains_key(code) && fx.rates[code].positive();
            let units = |code: Seq<char>|
                if code == fx.base {
                    Rate { bits: 0x3ff0_0000_0000_0000 }
                } else {
                    fx.rates[code]
                };
            &&& usable(from) && usable(to) ==> conversion(fx, from, to) == (Conversion::Through {
                from: units(from),
                to: units(to),
            })
            &&& !usable(from) || !usable(to) ==> conversion(fx, from, to) == Conversion::Impossible
        }),
{
}

/// A converted amount is the value of the quotient, in the target's currency, as
/// long as that is a finite number.
pub proof fn converted_amount_is_the_quotient(
    money: MoneyView,
    target: Seq<char>,
    fx: FxView,
    quotient: Rate,
)
    requires
        money.currency != target,
        ratio_in(fx, money.currency) is Some,
        ratio_in(fx, target) is Some,
    ensures
        quotient.finite() ==> ({
            let got = converted(money, target, fx, quotient);
            got is Some && got->Some_0.amount == quotient && got->Some_0.currency == target
        }),
        !quotient.finite() ==> converted(money, target, fx, quotient) is None,
{
}

} // verus!
