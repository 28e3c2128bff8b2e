//! Tariff tiers: which named rate card one entry uses at one instant.
//!
//! * `schedule` is matched in declaration order, the first match wins;
//! * a window is the half-open local interval `[start, end)`, where local means
//!   the UTC instant shifted by the rule's fixed offset;
//! * `weekdays` is decided on the local date, and an empty list means every day;
//! * a start after the end is a window that wraps past midnight; it belongs,
//!   with its weekday gate, to the day it starts on;
//! * no match falls back to `default_tariff`, then to the entry's own `cost`;
//! * a multiplier scales every known base field, an absolute card overrides the
//!   fields it writes and leaves the rest to `cost`;
//! * the first long-context tier below the call's input tokens applies on top;
//! * `effective_from` (inclusive) and `effective_until` (exclusive) bound the
//!   whole entry, tariffs included.

use crate::clock;
use crate::clock::{ClockTime, Instant, Weekday};
use crate::entry::{EntryView, ModelPricingEntry};
use crate::model;
use crate::rate::{Price, Rate};
use crate::rule_types::{
    ContextTier, CostFields, ScheduleRule, ScheduleView, Tariff, TimeWindow,
};
use vstd::prelude::*;

verus! {

/// The rates of a card with the tariffs applied to them.
#[derive(Debug, Clone, Copy, PartialEq, Eq, Structural)]
pub struct Prices {
    pub input: Option<Price>,
    pub output: Option<Price>,
    pub cache_read: Option<Price>,
    pub cache_write: Option<Price>,
}

/// A written rate as a price, scaled by nothing.
pub open spec fn as_written(rate: Option<Rate>) -> Option<Price> {
    match rate {
        Some(rate) => Some(Price::plain(rate)),
        None => None,
    }
}

/// A written rate scaled by the multiplier of a tariff.
pub open spec fn scaled(rate: Option<Rate>, factor: Rate) -> Option<Price> {
    match rate {
        Some(rate) => Some(Price { written: rate, window: Some(factor), context: None }),
        None => None,
    }
}

/// A price scaled by the multiplier of a long-context tier.
pub open spec fn scaled_again(price: Option<Price>, factor: Rate) -> Option<Price> {
    match price {
        Some(price) => Some(
            Price { written: price.written, window: price.window, context: Some(factor) },
        ),
        None => None,
    }
}

/// The first value, or the second where the first is absent.
pub open spec fn or_else<T>(first: Option<T>, second: Option<T>) -> Option<T> {
    match first {
        Some(v) => Some(v),
        None => second,
    }
}

/// The rates of a card as they are written.
pub open spec fn untouched(cost: CostFields) -> Prices {
    Prices {
        input: as_written(cost.input),
        output: as_written(cost.output),
        cache_read: as_written(cost.cache_read),
        cache_write: as_written(cost.cache_write),
    }
}

/// One tariff applied to a base rate card.
pub open spec fn with_tariff(cost: CostFields, tariff: Tariff) -> Prices {
    match tariff {
        Tariff::Multiplier(factor) => Prices {
            input: scaled(cost.input, factor),
            output: scaled(cost.output, factor),
            cache_read: scaled(cost.cache_read, factor),
            cache_write: scaled(cost.cache_write, factor),
        },
        Tariff::Absolute(fields) => Prices {
            input: as_written(or_else(fields.input, cost.input)),
            output: as_written(or_else(fields.output, cost.output)),
            cache_read: as_written(or_else(fields.cache_read, cost.cache_read)),
            cache_write: as_written(or_else(fields.cache_write, cost.cache_write)),
        },
    }
}

/// A long-context tier applied to the card that the schedule selected.
pub open spec fn with_tier(prices: Prices, tariff: Tariff) -> Prices {
    match tariff {
        Tariff::Multiplier(factor) => Prices {
            input: scaled_again(prices.input, factor),
            output: scaled_again(prices.output, factor),
            cache_read: scaled_again(prices.cache_read, factor),
            cache_write: scaled_again(prices.cache_write, factor),
        },
        Tariff::Absolute(fields) => Prices {
            input: or_else(as_written(fields.input), prices.input),
            output: or_else(as_written(fields.output), prices.output),
            cache_read: or_else(as_written(fields.cache_read), prices.cache_read),
            cache_write: or_else(as_written(fields.cache_write), prices.cache_write),
        },
    }
}

/// A multiplier prices exactly the fields that the base card states.
pub proof fn multiplier_keeps_absent_fields_absent(cost: CostFields, factor: Rate)
    ensures
        ({
            let prices = with_tariff(cost, Tariff::Multiplier(factor));
            &&& prices.input is Some == cost.input is Some
            &&& prices.output is Some == cost.output is Some
            &&& prices.cache_read is Some == cost.cache_read is Some
            &&& prices.cache_write is Some == cost.cache_write is Some
        }),
{
}

/// An absolute card overrides the fields it writes and no others.
pub proof fn absolute_overrides_written_fields_only(cost: CostFields, fields: CostFields)
    ensures
        ({
            let prices = with_tariff(cost, Tariff::Absolute(fields));
            &&& fields.input is Some ==> prices.input == as_written(fields.input)
            &&& fields.input is None ==> prices.input == as_written(cost.input)
            &&& fields.output is Some ==> prices.output == as_written(fields.output)
            &&& fields.output is None ==> prices.output == as_written(cost.output)
            &&& fields.cache_read is Some ==> prices.cache_read == as_written(fields.cache_read)
            &&& fields.cache_read is None ==> prices.cache_read == as_written(cost.cache_read)
            &&& fields.cache_write is Some ==> prices.cache_write == as_written(fields.cache_write)
            &&& fields.cache_write is None ==> prices.cache_write == as_written(cost.cache_write)
        }),
{
}

/// Whether `day` is one of a rule's start days; an empty list is every day.
pub open spec fn day_enabled(weekdays: Seq<Weekday>, day: Weekday) -> bool {
    weekdays.len() == 0 || weekdays.contains(day)
}

/// The day that a window is attributed to when it covers the local reading
/// `time` on `day`, or `None` when it does not cover it.
pub open spec fn start_day(window: TimeWindow, time: ClockTime, day: Weekday) -> Option<Weekday> {
    if window.wraps() {
        if !time.earlier(window.start) {
            Some(day)
        } else if time.earlier(window.end) {
            Some(clock::day_before(day))
        } else {
            None
        }
    } else if !time.earlier(window.start) && time.earlier(window.end) {
        Some(day)
    } else {
        None
    }
}

/// A window takes in its start, on the day of the reading, and leaves out its
/// end.
pub proof fn window_is_half_open(window: TimeWindow, day: Weekday)
    requires
        window.start != window.end,
    ensures
        start_day(window, window.start, day) == Some(day),
        start_day(window, window.end, day) is None,
{
}

/// Past midnight a wrapping window still belongs to the day it started on.
pub proof fn wrapping_window_belongs_to_its_start_day(
    window: TimeWindow,
    late: ClockTime,
    early: ClockTime,
    day: Weekday,
)
    requires
        window.wraps(),
        !late.earlier(window.start),
        early.earlier(window.end),
    ensures
        start_day(window, late, clock::day_before(day)) == start_day(window, early, day),
{
}

/// Whether a window covers a local reading on one of the rule's days.
pub open spec fn window_hits(
    window: TimeWindow,
    time: ClockTime,
    day: Weekday,
    weekdays: Seq<Weekday>,
) -> bool {
    match start_day(window, time, day) {
        Some(start) => day_enabled(weekdays, start),
        None => false,
    }
}

/// Whether one schedule rule covers `at`. A rule without windows covers its
/// days as a whole.
pub open spec fn rule_hits(rule: ScheduleView, at: Instant) -> bool {
    let time = clock::local_clock(at, rule.utc_offset_minutes as int);
    let day = clock::local_weekday(at, rule.utc_offset_minutes as int);
    if rule.windows.len() == 0 {
        day_enabled(rule.weekdays, day)
    } else {
        exists|i: int|
            0 <= i < rule.windows.len() && window_hits(
                #[trigger] rule.windows[i],
                time,
                day,
                rule.weekdays,
            )
    }
}

/// The first schedule rule from `from` on that covers `at`.
pub open spec fn first_hit(schedule: Seq<ScheduleView>, at: Instant, from: int) -> Option<int>
    decreases schedule.len() - from,
{
    if from < 0 || from >= schedule.len() {
        None
    } else if rule_hits(schedule[from], at) {
        Some(from)
    } else {
        first_hit(schedule, at, from + 1)
    }
}

/// The rule that is selected covers the instant, and no earlier one does.
pub proof fn first_matching_rule_wins(schedule: Seq<ScheduleView>, at: Instant, from: int)
    requires
        0 <= from,
    ensures
        match first_hit(schedule, at, from) {
            Some(i) => {
                &&& from <= i < schedule.len()
                &&& rule_hits(schedule[i], at)
                &&& forall|j: int| from <= j < i ==> !rule_hits(#[trigger] schedule[j], at)
            },
            None => forall|j: int|
                from <= j < schedule.len() ==> !rule_hits(#[trigger] schedule[j], at),
        },
    decreases schedule.len() - from,
{
    if from < schedule.len() && !rule_hits(schedule[from], at) {
        first_matching_rule_wins(schedule, at, from + 1);
    }
}

/// The name of the tariff in force at `at`: that of the first schedule rule that
/// covers it, else the default one, as far as the entry defines it.
pub open spec fn tariff_name(entry: EntryView, at: Instant) -> Option<Seq<char>> {
    let hit = first_hit(entry.schedule, at, 0);
    if hit is Some && model::has_key(entry.tariffs, entry.schedule[hit->Some_0].tariff) {
        Some(entry.schedule[hit->Some_0].tariff)
    } else if entry.default_tariff is Some && model::has_key(
        entry.tariffs,
        entry.default_tariff->Some_0,
    ) {
        Some(entry.default_tariff->Some_0)
    } else {
        None
    }
}

/// The card that the tariff in force at `at` makes of the base cost.
pub open spec fn tariff_prices(entry: EntryView, at: Instant) -> Prices {
    match tariff_name(entry, at) {
        Some(name) => with_tariff(entry.cost, model::get(entry.tariffs, name)->Some_0),
        None => untouched(entry.cost),
    }
}

/// The first tier from `from` on whose threshold is below the call's input.
pub open spec fn first_tier(tiers: Seq<ContextTier>, input_tokens: u64, from: int) -> Option<
    ContextTier,
>
    decreases tiers.len() - from,
{
    if from < 0 || from >= tiers.len() {
        None
    } else if input_tokens > tiers[from].min_input_tokens {
        Some(tiers[from])
    } else {
        first_tier(tiers, input_tokens, from + 1)
    }
}

/// The long-context tier of a call; a call without a count has none.
pub open spec fn tier_for(entry: EntryView, input_tokens: Option<u64>) -> Option<ContextTier> {
    match input_tokens {
        Some(n) => first_tier(entry.context_tiers, n, 0),
        None => None,
    }
}

/// A call of exactly the threshold is still below the tier.
pub proof fn threshold_itself_is_the_base_tier(tier: ContextTier, input_tokens: u64)
    ensures
        (first_tier(seq![tier], input_tokens, 0) == Some(tier)) == (input_tokens
            > tier.min_input_tokens),
{
    reveal_with_fuel(first_tier, 2);
}

#[verifier::ext_equal]
pub struct TierView {
    pub tariff: Option<Seq<char>>,
    pub context_tier: Option<u64>,
    pub prices: Prices,
}

/// The rates of an entry that is in effect at `at`.
pub open spec fn tier_of(entry: EntryView, at: Instant, input_tokens: Option<u64>) -> TierView {
    match tier_for(entry, input_tokens) {
        Some(tier) => TierView {
            tariff: tariff_name(entry, at),
            context_tier: Some(tier.min_input_tokens),
            prices: with_tier(tariff_prices(entry, at), tier.tariff),
        },
        None => TierView {
            tariff: tariff_name(entry, at),
            context_tier: None,
            prices: tariff_prices(entry, at),
        },
    }
}

/// The tariff one entry selects at one instant, with its complete rates.
#[derive(Debug)]
pub struct SelectedTier {
    /// Name of the tariff that supplied the rates; `None` when the entry's own
    /// `cost` applies.
    pub tariff: Option<String>,
    /// Threshold of the long-context tier that applied.
    pub context_tier: Option<u64>,
    /// The base `cost` with the tariff and the tier applied field by field.
    pub prices: Prices,
}

impl View for SelectedTier {
    type V = TierView;

    open spec fn view(&self) -> TierView {
        TierView {
            tariff: model::opt_view(self.tariff),
            context_tier: self.context_tier,
            prices: self.prices,
        }
    }
}

fn written_price(rate: Option<Rate>) -> (r: Option<Price>)
    ensures
        r == as_written(rate),
{
    match rate {
        Some(rate) => Some(Price::of(rate)),
        None => None,
    }
}

fn scale(rate: Option<Rate>, factor: Rate) -> (r: Option<Price>)
    ensures
        r == scaled(rate, factor),
{
    match rate {
        Some(rate) => Some(Price { written: rate, window: Some(factor), context: None }),
        None => None,
    }
}

fn scale_again(price: Option<Price>, factor: Rate) -> (r: Option<Price>)
    ensures
        r == scaled_again(price, factor),
{
    match price {
        Some(price) => Some(
            Price { written: price.written, window: price.window, context: Some(factor) },
        ),
        None => None,
    }
}

/// The first value, or the second where the first is absent.
pub fn first_of<T>(first: Option<T>, second: Option<T>) -> (r: Option<T>)
    ensures
        r == or_else(first, second),
{
    match first {
        Some(v) => Some(v),
        None => second,
    }
}

/// The rates of a card as they are written.
pub fn plain_prices(cost: CostFields) -> (r: Prices)
    ensures
        r == untouched(cost),
{
    Prices {
        input: written_price(cost.input),
        output: written_price(cost.output),
        cache_read: written_price(cost.cache_read),
        cache_write: written_price(cost.cache_write),
    }
}

/// Apply one tariff to a base rate card.
pub fn apply_tariff(cost: CostFields, tariff: Tariff) -> (r: Prices)
    ensures
        r == with_tariff(cost, tariff),
{
    match tariff {
        Tariff::Multiplier(factor) => Prices {
            input: scale(cost.input, factor),
            output: scale(cost.output, factor),
            cache_read: scale(cost.cache_read, factor),
            cache_write: scale(cost.cache_write, factor),
        },
        Tariff::Absolute(fields) => Prices {
            input: written_price(first_of(fields.input, cost.input)),
            output: written_price(first_of(fields.output, cost.output)),
            cache_read: written_price(first_of(fields.cache_read, cost.cache_read)),
            cache_write: written_price(first_of(fields.cache_write, cost.cache_write)),
        },
    }
}

/// Apply a long-context tier to the card that the schedule selected.
pub fn apply_tier(prices: Prices, tariff: Tariff) -> (r: Prices)
    ensures
        r == with_tier(prices, tariff),
{
    match tariff {
        Tariff::Multiplier(factor) => Prices {
            input: scale_again(prices.input, factor),
            output: scale_again(prices.output, factor),
            cache_read: scale_again(prices.cache_read, factor),
            cache_write: scale_again(prices.cache_write, factor),
        },
        Tariff::Absolute(fields) => Prices {
            input: first_of(written_price(fields.input), prices.input),
            output: first_of(written_price(fields.output), prices.output),
            cache_read: first_of(written_price(fields.cache_read), prices.cache_read),
            cache_write: first_of(written_price(fields.cache_write), prices.cache_write),
        },
    }
}

/// Whether `day` is one of the rule's start days; an empty list is every day.
pub fn weekday_enabled(weekdays: &Vec<Weekday>, day: Weekday) -> (r: bool)
    ensures
        r == day_enabled(weekdays@, day),
{
    if weekdays.len() == 0 {
        return true;
    }
    let mut i: usize = 0;
    while i < weekdays.len()
        invariant
            i <= weekdays@.len(),
            weekdays@.len() > 0,
            forall|k: int| 0 <= k < i ==> weekdays@[k] != day,
        decreases weekdays.len() - i,
    {
        if weekdays[i] == day {
            return true;
        }
        i += 1;
    }
    false
}

/// The day a window is attributed to when it covers a local reading.
pub fn window_start_day(window: &TimeWindow, time: ClockTime, day: Weekday) -> (r: Option<Weekday>)
    ensures
        r == start_day(*window, time, day),
{
    if window.wraps_midnight() {
        if !time.is_before(window.start) {
            Some(day)
        } else if time.is_before(window.end) {
            Some(clock::previous_weekday(day))
        } else {
            None
        }
    } else if !time.is_before(window.start) && time.is_before(window.end) {
        Some(day)
    } else {
        None
    }
}

/// Whether a local clock reading falls inside one window.
pub fn window_matches(
    window: &TimeWindow,
    time: ClockTime,
    day: Weekday,
    weekdays: &Vec<Weekday>,
) -> (r: bool)
    ensures
        r == window_hits(*window, time, day, weekdays@),
{
    match window_start_day(window, time, day) {
        Some(start) => weekday_enabled(weekdays, start),
        None => false,
    }
}

/// Whether one schedule rule covers `at`.
pub fn rule_matches(rule: &ScheduleRule, at: Instant) -> (r: bool)
    ensures
        r == rule_hits(rule@, at),
{
    let (time, day) = clock::local_reading(at, rule.utc_offset_minutes);
    if rule.windows.len() == 0 {
        return weekday_enabled(&rule.weekdays, day);
    }
    let mut i: usize = 0;
    while i < rule.windows.len()
        invariant
            i <= rule.windows@.len(),
            rule.windows@.len() > 0,
            time == clock::local_clock(at, rule.utc_offset_minutes as int),
            day == clock::local_weekday(at, rule.utc_offset_minutes as int),
            forall|k: int|
                0 <= k < i ==> !window_hits(
                    #[trigger] rule.windows@[k],
                    time,
                    day,
                    rule.weekdays@,
                ),
        decreases rule.windows.len() - i,
    {
        if window_matches(&rule.windows[i], time, day, &rule.weekdays) {
            assert(window_hits(rule@.windows[i as int], time, day, rule@.weekdays));
            return true;
        }
        i += 1;
    }
    false
}

fn first_match(schedule: &Vec<ScheduleRule>, at: Instant) -> (r: Option<usize>)
    ensures
        match r {
            Some(i) => first_hit(model::seq_view(schedule@), at, 0) == Some(i as int) && i
                < schedule@.len(),
            None => first_hit(model::seq_view(schedule@), at, 0) is None,
        },
{
    let ghost all = model::seq_view(schedule@);
    let mut i: usize = 0;
    while i < schedule.len()
        invariant
            i <= schedule@.len(),
            all == model::seq_view(schedule@),
            first_hit(all, at, 0) == first_hit(all, at, i as int),
        decreases schedule.len() - i,
    {
        if rule_matches(&schedule[i], at) {
            return Some(i);
        }
        i += 1;
    }
    None
}

fn find_tier(tiers: &Vec<ContextTier>, input_tokens: u64) -> (r: Option<ContextTier>)
    ensures
        r == first_tier(tiers@, input_tokens, 0),
{
    let mut i: usize = 0;
    while i < tiers.len()
        invariant
            i <= tiers@.len(),
            first_tier(tiers@, input_tokens, 0) == first_tier(tiers@, input_tokens, i as int),
        decreases tiers.len() - i,
    {
        if input_tokens > tiers[i].min_input_tokens {
            return Some(tiers[i]);
        }
        i += 1;
    }
    None
}

/// The named tariff in force at `at`, with the card it makes of the base cost.
fn select_tariff(entry: &ModelPricingEntry, at: Instant) -> (r: (Option<String>, Prices))
    ensures
        model::opt_view(r.0) == tariff_name(entry@, at),
        r.1 == tariff_prices(entry@, at),
{
    if let Some(i) = first_match(&entry.schedule, at) {
        let name = &entry.schedule[i].tariff;
        if let Some(tariff) = model::find(&entry.tariffs, name.as_str()) {
            return (Some(name.clone()), apply_tariff(entry.cost, *tariff));
        }
    }
    if let Some(name) = &entry.default_tariff {
        if let Some(tariff) = model::find(&entry.tariffs, name.as_str()) {
            return (Some(name.clone()), apply_tariff(entry.cost, *tariff));
        }
    }
    (None, plain_prices(entry.cost))
}

/// The tariff in effect at `at`, with the complete rates it produces.
///
/// `None` means the entry is out of effect at `at`, which tariff selection
/// cannot answer around. `input_tokens` is the call's reported input count; it
/// decides the long-context tier.
pub fn resolve_tier(entry: &ModelPricingEntry, at: Instant, input_tokens: Option<u64>) -> (r: Option<
    SelectedTier,
>)
    ensures
        model::opt_view(r) == if entry@.active(at) {
            Some(tier_of(entry@, at, input_tokens))
        } else {
            None
        },
{
    if !entry.is_active_at(at) {
        return None;
    }
    let (tariff, prices) = select_tariff(entry, at);
    let tier = match input_tokens {
        Some(n) => find_tier(&entry.context_tiers, n),
        None => None,
    };
    match tier {
        Some(tier) => Some(
            SelectedTier {
                tariff,
                context_tier: Some(tier.min_input_tokens),
                prices: apply_tier(prices, tier.tariff),
            },
        ),
        None => Some(SelectedTier { tariff, context_tier: None, prices }),
    }
}

/// Whether a window takes in a reading of the clock on `day` as part of what
/// began on `start`: from its start on the same day, and where its end is the
/// earlier reading, also on the day after, until that end.
pub open spec fn takes_in(
    window: TimeWindow,
    time: ClockTime,
    day: Weekday,
    start: Weekday,
) -> bool {
    let over_night = window.end.earlier(window.start);
    ||| start == day && !time.earlier(window.start) && (over_night || time.earlier(window.end))
    ||| start == clock::day_before(day) && over_night && time.earlier(window.end)
}

/// A reading in one of a rule's windows is covered wherever in the list of
/// weekdays its start day stands, and on every day where the list is empty.
pub proof fn every_listed_day_is_covered(
    rule: ScheduleView,
    at: Instant,
    window: int,
    listed: int,
    start: Weekday,
)
    requires
        0 <= window < rule.windows.len(),
        takes_in(
            rule.windows[window],
            clock::local_clock(at, rule.utc_offset_minutes as int),
            clock::local_weekday(at, rule.utc_offset_minutes as int),
            start,
        ),
        rule.weekdays.len() == 0 || (0 <= listed < rule.weekdays.len() && rule.weekdays[listed]
            == start),
    ensures
        rule_hits(rule, at),
{
    let time = clock::local_clock(at, rule.utc_offset_minutes as int);
    let day = clock::local_weekday(at, rule.utc_offset_minutes as int);
    clock::days_follow_on_each_other(day);
    assert(window_hits(rule.windows[window], time, day, rule.weekdays));
}

/// Nothing else is covered: a reading that a rule with windows covers is in one
/// of them, and its start day is one of the listed ones.
pub proof fn only_listed_days_are_covered(rule: ScheduleView, at: Instant) -> (r: (
    int,
    int,
    Weekday,
))
    requires
        rule.windows.len() > 0,
        rule_hits(rule, at),
    ensures
        0 <= r.0 < rule.windows.len(),
        takes_in(
            rule.windows[r.0],
            clock::local_clock(at, rule.utc_offset_minutes as int),
            clock::local_weekday(at, rule.utc_offset_minutes as int),
            r.2,
        ),
        rule.weekdays.len() == 0 || (0 <= r.1 < rule.weekdays.len() && rule.weekdays[r.1] == r.2),
{
    let time = clock::local_clock(at, rule.utc_offset_minutes as int);
    let day = clock::local_weekday(at, rule.utc_offset_minutes as int);
    let window = choose|i: int|
        0 <= i < rule.windows.len() && window_hits(
            #[trigger] rule.windows[i],
            time,
            day,
            rule.weekdays,
        );
    let start = start_day(rule.windows[window], time, day)->Some_0;
    let listed = if rule.weekdays.len() == 0 {
        0
    } else {
        choose|i: int| 0 <= i < rule.weekdays.len() && rule.weekdays[i] == start
    };
    (window, listed, start)
}

/// A rule without windows covers all of each listed day and nothing of any
/// other, and every day where none is listed.
pub proof fn rule_without_windows_covers_whole_days(rule: ScheduleView, at: Instant)
    requires
        rule.windows.len() == 0,
    ensures
        rule_hits(rule, at) <==> rule.weekdays.len() == 0 || exists|i: int|
            0 <= i < rule.weekdays.len() && #[trigger] rule.weekdays[i] == clock::local_weekday(
                at,
                rule.utc_offset_minutes as int,
            ),
{
}

proof fn lemma_first_hit_is(schedule: Seq<ScheduleView>, at: Instant, from: int, hit: int)
    requires
        0 <= from <= hit < schedule.len(),
        rule_hits(schedule[hit], at),
        forall|j: int| from <= j < hit ==> !rule_hits(#[trigger] schedule[j], at),
    ensures
        first_hit(schedule, at, from) == Some(hit),
    decreases hit - from,
{
    if from < hit {
        assert(!rule_hits(schedule[from], at));
        lemma_first_hit_is(schedule, at, from + 1, hit);
    }
}

proof fn lemma_tariff_found(tariffs: Seq<(Seq<char>, Tariff)>, at: int)
    requires
        0 <= at < tariffs.len(),
        forall|k: int| 0 <= k < at ==> (#[trigger] tariffs[k]).0 != tariffs[at].0,
    ensures
        model::get(tariffs, tariffs[at].0) == Some(tariffs[at].1),
{
    model::lemma_index_from(tariffs, tariffs[at].0, 0);
}

/// The first schedule rule that covers the instant names the tariff, and that
/// tariff's rates are the call's.
pub proof fn covering_rule_sets_the_tariff(entry: EntryView, at: Instant, rule: int, tariff: int)
    requires
        0 <= rule < entry.schedule.len(),
        rule_hits(entry.schedule[rule], at),
        forall|j: int| 0 <= j < rule ==> !rule_hits(#[trigger] entry.schedule[j], at),
        0 <= tariff < entry.tariffs.len(),
        entry.tariffs[tariff].0 == entry.schedule[rule].tariff,
        forall|k: int| 0 <= k < tariff ==> (#[trigger] entry.tariffs[k]).0
            != entry.tariffs[tariff].0,
    ensures
        tier_of(entry, at, None).tariff == Some(entry.schedule[rule].tariff),
        tier_of(entry, at, None).context_tier is None,
        tier_of(entry, at, None).prices == with_tariff(entry.cost, entry.tariffs[tariff].1),
{
    lemma_first_hit_is(entry.schedule, at, 0, rule);
    lemma_tariff_found(entry.tariffs, tariff);
}

/// Where no schedule rule covers the instant the default tariff applies, and
/// without one the entry's own rates do.
pub proof fn default_tariff_applies_outside_the_schedule(
    entry: EntryView,
    at: Instant,
    tariff: int,
)
    requires
        forall|j: int| 0 <= j < entry.schedule.len() ==> !rule_hits(
            #[trigger] entry.schedule[j],
            at,
        ),
    ensures
        entry.default_tariff is None ==> tier_of(entry, at, None).tariff is None && tier_of(
            entry,
            at,
            None,
        ).prices == untouched(entry.cost),
        0 <= tariff < entry.tariffs.len() && entry.default_tariff == Some(entry.tariffs[tariff].0)
            && (forall|k: int| 0 <= k < tariff ==> (#[trigger] entry.tariffs[k]).0
            != entry.tariffs[tariff].0) ==> tier_of(entry, at, None).tariff
            == entry.default_tariff && tier_of(entry, at, None).prices == with_tariff(
            entry.cost,
            entry.tariffs[tariff].1,
        ),
        tier_of(entry, at, None).context_tier is None,
{
    first_matching_rule_wins(entry.schedule, at, 0);
    if 0 <= tariff < entry.tariffs.len() && (forall|k: int| 0 <= k < tariff ==> (
    #[trigger] entry.tariffs[k]).0 != entry.tariffs[tariff].0) {
        lemma_tariff_found(entry.tariffs, tariff);
    }
}

proof fn lemma_first_tier_is(tiers: Seq<ContextTier>, input_tokens: u64, from: int, hit: int)
    requires
        0 <= from <= hit < tiers.len(),
        input_tokens > tiers[hit].min_input_tokens,
        forall|j: int| from <= j < hit ==> input_tokens <= (#[trigger] tiers[j]).min_input_tokens,
    ensures
        first_tier(tiers, input_tokens, from) == Some(tiers[hit]),
    decreases hit - from,
{
    if from < hit {
        lemma_first_tier_is(tiers, input_tokens, from + 1, hit);
    }
}

proof fn lemma_no_tier(tiers: Seq<ContextTier>, input_tokens: u64, from: int)
    requires
        0 <= from,
        forall|j: int|
            from <= j < tiers.len() ==> input_tokens <= (#[trigger] tiers[j]).min_input_tokens,
    ensures
        first_tier(tiers, input_tokens, from) is None,
    decreases tiers.len() - from,
{
    if from < tiers.len() {
        lemma_no_tier(tiers, input_tokens, from + 1);
    }
}

/// The first long-context tier whose threshold the call's input is above applies
/// to the rates that the schedule gave, whatever tariff that was.
pub proof fn first_tier_below_the_input_applies(
    entry: EntryView,
    at: Instant,
    input_tokens: u64,
    tier: int,
)
    requires
        0 <= tier < entry.context_tiers.len(),
        input_tokens > entry.context_tiers[tier].min_input_tokens,
        forall|j: int|
            0 <= j < tier ==> input_tokens <= (#[trigger] entry.context_tiers[j]).min_input_tokens,
    ensures
        ({
            let base = tier_of(entry, at, None);
            let got = tier_of(entry, at, Some(input_tokens));
            &&& got.tariff == base.tariff
            &&& got.context_tier == Some(entry.context_tiers[tier].min_input_tokens)
            &&& got.prices == with_tier(base.prices, entry.context_tiers[tier].tariff)
        }),
{
    lemma_first_tier_is(entry.context_tiers, input_tokens, 0, tier);
}

/// A call that is above no threshold has the rates of a call without a count.
pub proof fn small_call_has_the_base_rates(entry: EntryView, at: Instant, input_tokens: u64)
    requires
        forall|j: int|
            0 <= j < entry.context_tiers.len() ==> input_tokens <= (
            #[trigger] entry.context_tiers[j]).min_input_tokens,
    ensures
        tier_of(entry, at, Some(input_tokens)) == tier_of(entry, at, None),
{
    lemma_no_tier(entry.context_tiers, input_tokens, 0);
}

/// A card without a tariff has exactly the rates that it states.
pub proof fn plain_card_has_its_own_rates(cost: CostFields)
    ensures
        ({
            let prices = untouched(cost);
            &&& prices.input == match cost.input {
                Some(rate) => Some(Price { written: rate, window: None, context: None }),
                None => None,
            }
            &&& prices.output == match cost.output {
                Some(rate) => Some(Price { written: rate, window: None, context: None }),
                None => None,
            }
            &&& prices.cache_read == match cost.cache_read {
                Some(rate) => Some(Price { written: rate, window: None, context: None }),
                None => None,
            }
            &&& prices.cache_write == match cost.cache_write {
                Some(rate) => Some(Price { written: rate, window: None, context: None }),
                None => None,
            }
        }),
{
}

/// A multiplier scales every rate that the card states, each its own, once.
pub proof fn multiplier_scales_each_rate(cost: CostFields, factor: Rate)
    ensures
        ({
            let prices = with_tariff(cost, Tariff::Multiplier(factor));
            &&& prices.input == match cost.input {
                Some(rate) => Some(Price { written: rate, window: Some(factor), context: None }),
                None => None,
            }
            &&& prices.output == match cost.output {
                Some(rate) => Some(Price { written: rate, window: Some(factor), context: None }),
                None => None,
            }
            &&& prices.cache_read == match cost.cache_read {
                Some(rate) => Some(Price { written: rate, window: Some(factor), context: None }),
                None => None,
            }
            &&& prices.cache_write == match cost.cache_write {
                Some(rate) => Some(Price { written: rate, window: Some(factor), context: None }),
                None => None,
            }
        }),
{
}

/// A long-context multiplier scales every price on top of what the tariff made
/// of it, and adds none.
pub proof fn tier_multiplier_scales_each_price(prices: Prices, factor: Rate)
    ensures
        ({
            let after = with_tier(prices, Tariff::Multiplier(factor));
            &&& after.input == match prices.input {
                Some(p) => Some(Price { context: Some(factor), ..p }),
                None => None,
            }
            &&& after.output == match prices.output {
                Some(p) => Some(Price { context: Some(factor), ..p }),
                None => None,
            }
            &&& after.cache_read == match prices.cache_read {
                Some(p) => Some(Price { context: Some(factor), ..p }),
                None => None,
            }
            &&& after.cache_write == match prices.cache_write {
                Some(p) => Some(Price { context: Some(factor), ..p }),
                None => None,
            }
        }),
{
}

/// A long-context card replaces the prices that it states by exactly the stated
/// rates, and leaves the others as they were.
pub proof fn tier_card_replaces_stated_prices(prices: Prices, fields: CostFields)
    ensures
        ({
            let after = with_tier(prices, Tariff::Absolute(fields));
            &&& after.input == match fields.input {
                Some(rate) => Some(Price { written: rate, window: None, context: None }),
                None => prices.input,
            }
            &&& after.output == match fields.output {
                Some(rate) => Some(Price { written: rate, window: None, context: None }),
                None => prices.output,
            }
            &&& after.cache_read == match fields.cache_read {
                Some(rate) => Some(Price { written: rate, window: None, context: None }),
                None => prices.cache_read,
            }
            &&& after.cache_write == match fields.cache_write {
                Some(rate) => Some(Price { written: rate, window: None, context: None }),
                None => prices.cache_write,
            }
        }),
{
}

} // verus!
