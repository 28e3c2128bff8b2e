//! Validation and conversion of one model's rate rule.
//!
//! Everything that needs more than the written shape (time windows, weekday
//! names, cross-field checks) is decided here, and every error carries the
//! config path that produced it.

use crate::clock;
use crate::clock::{ClockTime, Instant, Weekday};
use crate::config_types::{
    ContextTierFile, ContextTierFileView, CostFile, CostFileView, ModelPricingRuleFile,
    ModelPricingRuleFileView, Number, NumberView, OnRuleExpiry, ScheduleRuleFile,
    ScheduleRuleFileView, TariffFile, TariffFileView,
};
use crate::model;
use crate::rate::Rate;
use crate::rule_types::{
    ContextTier, CostFields, ErrorView, ModelPricingRule, PricingConfigError, RuleView,
    ScheduleRule, ScheduleView, Tariff, TimeWindow,
};
use crate::text;
use vstd::prelude::*;

verus! {

/// The failure at `path` with a message.
pub open spec fn failure(path: Seq<char>, message: Seq<char>) -> ErrorView {
    ErrorView { field_path: path, message }
}

/// The `index`th element of the list at `path`.
pub open spec fn at_index(path: Seq<char>, index: int) -> Seq<char> {
    path + "["@ + text::decimal(index as nat) + "]"@
}

/// What a conversion gave, as views.
pub open spec fn outcome<T: View>(r: Result<T, PricingConfigError>) -> Result<T::V, ErrorView> {
    match r {
        Ok(v) => Ok(v@),
        Err(e) => Err(e@),
    }
}

/// What a conversion to a plain value gave.
pub open spec fn plain_outcome<T>(r: Result<T, PricingConfigError>) -> Result<T, ErrorView> {
    match r {
        Ok(v) => Ok(v),
        Err(e) => Err(e@),
    }
}

impl PricingConfigError {
    pub fn new(field_path: &str, message: &str) -> (r: PricingConfigError)
        ensures
            r@ == failure(field_path@, message@),
    {
        PricingConfigError { field_path: text::owned(field_path), message: text::owned(message) }
    }

    /// The error as one line.
    pub fn to_text(&self) -> (r: String)
        ensures
            r@ == self@.field_path + ": "@ + self@.message,
    {
        text::join3(self.field_path.as_str(), ": ", self.message.as_str())
    }
}

fn indexed(path: &str, index: usize) -> (r: String)
    ensures
        r@ == at_index(path@, index as int),
{
    let n = text::decimal_text(index as u128);
    text::join4(path, "[", n.as_str(), "]")
}

/// A rate that is a finite number of at least zero, or none at all.
pub open spec fn rate_of(value: Option<NumberView>, path: Seq<char>) -> Result<
    Option<Rate>,
    ErrorView,
> {
    match value {
        None => Ok(None),
        Some(n) => if n.rate.non_negative() {
            Ok(Some(n.rate))
        } else {
            Err(failure(path, "a rate must be a finite, non-negative number, got "@ + n.text))
        },
    }
}

/// Reject a rate that is not a finite, non-negative number.
pub fn validate_rate(value: &Option<Number>, path: &str) -> (r: Result<
    Option<Rate>,
    PricingConfigError,
>)
    ensures
        plain_outcome(r) == rate_of(model::opt_view(*value), path@),
{
    match value {
        None => Ok(None),
        Some(n) => if n.rate.is_non_negative() {
            Ok(Some(n.rate))
        } else {
            let message = text::join2(
                "a rate must be a finite, non-negative number, got ",
                n.text.as_str(),
            );
            Err(PricingConfigError::new(path, message.as_str()))
        },
    }
}

/// The four rates of a card, checked in the order in which they are written.
pub open spec fn rates_of(card: CostFileView, path: Seq<char>) -> Result<CostFields, ErrorView> {
    match rate_of(card.input, path + ".input"@) {
        Err(e) => Err(e),
        Ok(input) => match rate_of(card.output, path + ".output"@) {
            Err(e) => Err(e),
            Ok(output) => match rate_of(card.cache_read, path + ".cache_read"@) {
                Err(e) => Err(e),
                Ok(cache_read) => match rate_of(card.cache_write, path + ".cache_write"@) {
                    Err(e) => Err(e),
                    Ok(cache_write) => Ok(CostFields { input, output, cache_read, cache_write }),
                },
            },
        },
    }
}

fn four_rates(
    input: &Option<Number>,
    output: &Option<Number>,
    cache_read: &Option<Number>,
    cache_write: &Option<Number>,
    path: &str,
) -> (r: Result<CostFields, PricingConfigError>)
    ensures
        plain_outcome(r) == rates_of(
            (CostFileView {
                input: model::opt_view(*input),
                output: model::opt_view(*output),
                cache_read: model::opt_view(*cache_read),
                cache_write: model::opt_view(*cache_write),
            }),
            path@,
        ),
{
    let at_input = text::join2(path, ".input");
    let input = match validate_rate(input, at_input.as_str()) {
        Ok(rate) => rate,
        Err(e) => {
            return Err(e);
        },
    };
    let at_output = text::join2(path, ".output");
    let output = match validate_rate(output, at_output.as_str()) {
        Ok(rate) => rate,
        Err(e) => {
            return Err(e);
        },
    };
    let at_read = text::join2(path, ".cache_read");
    let cache_read = match validate_rate(cache_read, at_read.as_str()) {
        Ok(rate) => rate,
        Err(e) => {
            return Err(e);
        },
    };
    let at_write = text::join2(path, ".cache_write");
    let cache_write = match validate_rate(cache_write, at_write.as_str()) {
        Ok(rate) => rate,
        Err(e) => {
            return Err(e);
        },
    };
    Ok(CostFields { input, output, cache_read, cache_write })
}

/// A card that states no rate.
pub open spec fn states_nothing(card: CostFileView) -> bool {
    card.input is None && card.output is None && card.cache_read is None && card.cache_write
        is None
}

/// A `cost` table: at least one rate, and every rate valid.
pub open spec fn cost_of(cost: CostFileView, path: Seq<char>) -> Result<CostFields, ErrorView> {
    if states_nothing(cost) {
        Err(
            failure(
                path,
                "a `cost` table needs at least one of input/output/cache_read/cache_write"@,
            ),
        )
    } else {
        rates_of(cost, path)
    }
}

pub fn convert_cost(cost: &CostFile, path: &str) -> (r: Result<CostFields, PricingConfigError>)
    ensures
        plain_outcome(r) == cost_of(cost@, path@),
{
    if cost.input.is_none() && cost.output.is_none() && cost.cache_read.is_none()
        && cost.cache_write.is_none() {
        return Err(
            PricingConfigError::new(
                path,
                "a `cost` table needs at least one of input/output/cache_read/cache_write",
            ),
        );
    }
    four_rates(&cost.input, &cost.output, &cost.cache_read, &cost.cache_write, path)
}

/// The absolute rates that a tariff states.
pub open spec fn absolute_part(tariff: TariffFileView) -> CostFileView {
    CostFileView {
        input: tariff.input,
        output: tariff.output,
        cache_read: tariff.cache_read,
        cache_write: tariff.cache_write,
    }
}

/// A tariff: a positive multiplier or absolute rates, and not both.
pub open spec fn tariff_of(tariff: TariffFileView, path: Seq<char>) -> Result<Tariff, ErrorView> {
    let absolute = !states_nothing(absolute_part(tariff));
    match tariff.multiplier {
        Some(m) => if absolute {
            Err(failure(path, "a tariff is either a `multiplier` or absolute prices, not both"@))
        } else if m.rate.positive() {
            Ok(Tariff::Multiplier(m.rate))
        } else {
            Err(failure(path, "multiplier must be positive and finite, got "@ + m.text))
        },
        None => if absolute {
            match rates_of(absolute_part(tariff), path) {
                Ok(fields) => Ok(Tariff::Absolute(fields)),
                Err(e) => Err(e),
            }
        } else {
            Err(
                failure(
                    path,
                    "a tariff needs either a `multiplier` or at least one absolute price"@,
                ),
            )
        },
    }
}

fn tariff_from_parts(
    input: &Option<Number>,
    output: &Option<Number>,
    cache_read: &Option<Number>,
    cache_write: &Option<Number>,
    multiplier: &Option<Number>,
    path: &str,
) -> (r: Result<Tariff, PricingConfigError>)
    ensures
        plain_outcome(r) == tariff_of(
            (TariffFileView {
                input: model::opt_view(*input),
                output: model::opt_view(*output),
                cache_read: model::opt_view(*cache_read),
                cache_write: model::opt_view(*cache_write),
                multiplier: model::opt_view(*multiplier),
            }),
            path@,
        ),
{
    let absolute: bool = input.is_some() || output.is_some() || cache_read.is_some()
        || cache_write.is_some();
    match multiplier {
        Some(m) => {
            if absolute {
                return Err(
                    PricingConfigError::new(
                        path,
                        "a tariff is either a `multiplier` or absolute prices, not both",
                    ),
                );
            }
            if !m.rate.is_positive() {
                let message = text::join2(
                    "multiplier must be positive and finite, got ",
                    m.text.as_str(),
                );
                return Err(PricingConfigError::new(path, message.as_str()));
            }
            Ok(Tariff::Multiplier(m.rate))
        },
        None => {
            if !absolute {
                return Err(
                    PricingConfigError::new(
                        path,
                        "a tariff needs either a `multiplier` or at least one absolute price",
                    ),
                );
            }
            match four_rates(input, output, cache_read, cache_write, path) {
                Ok(fields) => Ok(Tariff::Absolute(fields)),
                Err(e) => Err(e),
            }
        },
    }
}

pub fn convert_tariff(tariff: &TariffFile, path: &str) -> (r: Result<Tariff, PricingConfigError>)
    ensures
        plain_outcome(r) == tariff_of(tariff@, path@),
{
    tariff_from_parts(
        &tariff.input,
        &tariff.output,
        &tariff.cache_read,
        &tariff.cache_write,
        &tariff.multiplier,
        path,
    )
}

/// The weekday that a name in small letters stands for.
pub open spec fn weekday_named(name: Seq<char>) -> Option<Weekday> {
    if name == "mon"@ || name == "monday"@ {
        Some(Weekday::Mon)
    } else if name == "tue"@ || name == "tues"@ || name == "tuesday"@ {
        Some(Weekday::Tue)
    } else if name == "wed"@ || name == "weds"@ || name == "wednesday"@ {
        Some(Weekday::Wed)
    } else if name == "thu"@ || name == "thur"@ || name == "thurs"@ || name == "thursday"@ {
        Some(Weekday::Thu)
    } else if name == "fri"@ || name == "friday"@ {
        Some(Weekday::Fri)
    } else if name == "sat"@ || name == "saturday"@ {
        Some(Weekday::Sat)
    } else if name == "sun"@ || name == "sunday"@ {
        Some(Weekday::Sun)
    } else {
        None
    }
}

/// A written weekday, whatever its case.
pub open spec fn weekday_of(raw: Seq<char>, path: Seq<char>) -> Result<Weekday, ErrorView> {
    match weekday_named(text::lowered(text::trimmed(raw))) {
        Some(day) => Ok(day),
        None => Err(
            failure(
                path,
                "unknown weekday `"@ + raw
                    + "`; expected one of Mon/Tue/Wed/Thu/Fri/Sat/Sun (full names accepted)"@,
            ),
        ),
    }
}

pub fn parse_weekday(raw: &str, path: &str) -> (r: Result<Weekday, PricingConfigError>)
    ensures
        plain_outcome(r) == weekday_of(raw@, path@),
{
    let lower = text::to_lower(text::trim(raw));
    let n = lower.as_str();
    if text::same(n, "mon") || text::same(n, "monday") {
        Ok(Weekday::Mon)
    } else if text::same(n, "tue") || text::same(n, "tues") || text::same(n, "tuesday") {
        Ok(Weekday::Tue)
    } else if text::same(n, "wed") || text::same(n, "weds") || text::same(n, "wednesday") {
        Ok(Weekday::Wed)
    } else if text::same(n, "thu") || text::same(n, "thur") || text::same(n, "thurs")
        || text::same(n, "thursday") {
        Ok(Weekday::Thu)
    } else if text::same(n, "fri") || text::same(n, "friday") {
        Ok(Weekday::Fri)
    } else if text::same(n, "sat") || text::same(n, "saturday") {
        Ok(Weekday::Sat)
    } else if text::same(n, "sun") || text::same(n, "sunday") {
        Ok(Weekday::Sun)
    } else {
        let message = text::join3(
            "unknown weekday `",
            raw,
            "`; expected one of Mon/Tue/Wed/Thu/Fri/Sat/Sun (full names accepted)",
        );
        Err(PricingConfigError::new(path, message.as_str()))
    }
}

/// The reading of a time in hours and minutes, else the one with seconds.
pub open spec fn time_from(
    short: Option<ClockTime>,
    long: Option<ClockTime>,
    raw: Seq<char>,
    path: Seq<char>,
) -> Result<ClockTime, ErrorView> {
    match short {
        Some(t) => Ok(t),
        None => match long {
            Some(t) => Ok(t),
            None => Err(
                failure(path, "expected `HH:MM` (or `HH:MM:SS`), got `"@ + raw + "`"@),
            ),
        },
    }
}

/// A written time of day.
pub open spec fn time_of(raw: Seq<char>, path: Seq<char>) -> Result<ClockTime, ErrorView> {
    time_from(
        clock::clock_parsed(text::trimmed(raw), "%H:%M"@),
        clock::clock_parsed(text::trimmed(raw), "%H:%M:%S"@),
        raw,
        path,
    )
}

/// What the two readings of the written time `raw` amount to.
pub fn read_time(
    short: Option<ClockTime>,
    long: Option<ClockTime>,
    raw: &str,
    path: &str,
) -> (r: Result<ClockTime, PricingConfigError>)
    ensures
        plain_outcome(r) == time_from(short, long, raw@, path@),
{
    match short {
        Some(t) => Ok(t),
        None => match long {
            Some(t) => Ok(t),
            None => {
                let message = text::join3("expected `HH:MM` (or `HH:MM:SS`), got `", raw, "`");
                Err(PricingConfigError::new(path, message.as_str()))
            },
        },
    }
}

pub fn parse_time(raw: &str, path: &str) -> (r: Result<ClockTime, PricingConfigError>)
    ensures
        plain_outcome(r) == time_of(raw@, path@),
{
    let trimmed = text::trim(raw);
    let short = clock::parse_clock(trimmed, "%H:%M");
    let long = clock::parse_clock(trimmed, "%H:%M:%S");
    read_time(short, long, raw, path)
}

/// A written timestamp, given what reading it as one gave.
pub open spec fn timestamp_from(
    parsed: Option<Instant>,
    raw: Seq<char>,
    path: Seq<char>,
) -> Result<Option<Instant>, ErrorView> {
    match parsed {
        Some(at) => Ok(Some(at)),
        None => Err(failure(path, "expected an RFC 3339 timestamp, got `"@ + raw + "`"@)),
    }
}

/// An optional written timestamp.
pub open spec fn timestamp_of(raw: Option<Seq<char>>, path: Seq<char>) -> Result<
    Option<Instant>,
    ErrorView,
> {
    match raw {
        None => Ok(None),
        Some(raw) => timestamp_from(clock::instant_parsed(text::trimmed(raw)), raw, path),
    }
}

/// What reading `raw` as a timestamp amounts to.
pub fn read_timestamp(parsed: Option<Instant>, raw: &str, path: &str) -> (r: Result<
    Option<Instant>,
    PricingConfigError,
>)
    ensures
        plain_outcome(r) == timestamp_from(parsed, raw@, path@),
{
    match parsed {
        Some(at) => Ok(Some(at)),
        None => {
            let message = text::join3("expected an RFC 3339 timestamp, got `", raw, "`");
            Err(PricingConfigError::new(path, message.as_str()))
        },
    }
}

pub fn parse_timestamp(raw: &Option<String>, path: &str) -> (r: Result<
    Option<Instant>,
    PricingConfigError,
>)
    ensures
        plain_outcome(r) == timestamp_of(model::opt_view(*raw), path@),
{
    match raw {
        None => Ok(None),
        Some(raw) => {
            let parsed = clock::parse_instant(text::trim(raw.as_str()));
            read_timestamp(parsed, raw.as_str(), path)
        },
    }
}

/// A window between two times that differ.
pub open spec fn window_from(start: ClockTime, end: ClockTime, path: Seq<char>) -> Result<
    TimeWindow,
    ErrorView,
> {
    if start == end {
        Err(
            failure(
                path,
                "window start equals end; use `start > end` for a window that wraps past midnight"@,
            ),
        )
    } else {
        Ok(TimeWindow { start, end })
    }
}

/// A written window.
pub open spec fn window_of(window: (Seq<char>, Seq<char>), path: Seq<char>) -> Result<
    TimeWindow,
    ErrorView,
> {
    match time_of(window.0, path + ".start"@) {
        Err(e) => Err(e),
        Ok(start) => match time_of(window.1, path + ".end"@) {
            Err(e) => Err(e),
            Ok(end) => window_from(start, end, path),
        },
    }
}

/// The window between `start` and `end`.
pub fn window_between(start: ClockTime, end: ClockTime, path: &str) -> (r: Result<
    TimeWindow,
    PricingConfigError,
>)
    ensures
        plain_outcome(r) == window_from(start, end, path@),
{
    if start == end {
        return Err(
            PricingConfigError::new(
                path,
                "window start equals end; use `start > end` for a window that wraps past midnight",
            ),
        );
    }
    Ok(TimeWindow { start, end })
}

pub fn parse_window(start: &str, end: &str, path: &str) -> (r: Result<
    TimeWindow,
    PricingConfigError,
>)
    ensures
        plain_outcome(r) == window_of((start@, end@), path@),
{
    let at_start = text::join2(path, ".start");
    let start = match parse_time(start, at_start.as_str()) {
        Ok(t) => t,
        Err(e) => {
            return Err(e);
        },
    };
    let at_end = text::join2(path, ".end");
    let end = match parse_time(end, at_end.as_str()) {
        Ok(t) => t,
        Err(e) => {
            return Err(e);
        },
    };
    window_between(start, end, path)
}

/// One weekday of the list below `path`.
pub open spec fn weekday_step(path: Seq<char>) -> spec_fn(int, Seq<char>) -> Result<
    Weekday,
    ErrorView,
> {
    |i: int, raw: Seq<char>| weekday_of(raw, at_index(path + ".weekdays"@, i))
}

/// One window of the list below `path`.
pub open spec fn window_step(path: Seq<char>) -> spec_fn(
    int,
    (Seq<char>, Seq<char>),
) -> Result<TimeWindow, ErrorView> {
    |i: int, raw: (Seq<char>, Seq<char>)| window_of(raw, at_index(path + ".windows"@, i))
}

fn convert_weekdays(days: &Vec<String>, path: &str) -> (r: Result<
    Vec<Weekday>,
    PricingConfigError,
>)
    ensures
        match r {
            Ok(v) => model::collect(model::seq_view(days@), weekday_step(path@)) == Ok::<
                Seq<Weekday>,
                ErrorView,
            >(v@),
            Err(e) => model::collect(model::seq_view(days@), weekday_step(path@)) == Err::<
                Seq<Weekday>,
                ErrorView,
            >(e@),
        },
{
    let ghost s = model::seq_view(days@);
    let ghost f = weekday_step(path@);
    let base = text::join2(path, ".weekdays");
    let mut out: Vec<Weekday> = Vec::new();
    let mut i: usize = 0;
    while i < days.len()
        invariant
            i <= days@.len(),
            base@ == path@ + ".weekdays"@,
            s == model::seq_view(days@),
            f == weekday_step(path@),
            model::collect(s.take(i as int), f) == Ok::<Seq<Weekday>, ErrorView>(out@),
        decreases days.len() - i,
    {
        let at = indexed(base.as_str(), i);
        proof {
            model::lemma_collect_step(s, f, i as int);
        }
        match parse_weekday(days[i].as_str(), at.as_str()) {
            Ok(day) => {
                out.push(day);
            },
            Err(e) => {
                proof {
                    model::lemma_collect_fails(s, f, i + 1);
                }
                return Err(e);
            },
        }
        i += 1;
    }
    assert(s.take(i as int) =~= s);
    Ok(out)
}

fn convert_windows(windows: &Vec<(String, String)>, path: &str) -> (r: Result<
    Vec<TimeWindow>,
    PricingConfigError,
>)
    ensures
        match r {
            Ok(v) => model::collect(model::keyed_view(windows@), window_step(path@)) == Ok::<
                Seq<TimeWindow>,
                ErrorView,
            >(v@),
            Err(e) => model::collect(model::keyed_view(windows@), window_step(path@)) == Err::<
                Seq<TimeWindow>,
                ErrorView,
            >(e@),
        },
{
    let ghost s = model::keyed_view(windows@);
    let ghost f = window_step(path@);
    let base = text::join2(path, ".windows");
    let mut out: Vec<TimeWindow> = Vec::new();
    let mut i: usize = 0;
    while i < windows.len()
        invariant
            i <= windows@.len(),
            base@ == path@ + ".windows"@,
            s == model::keyed_view(windows@),
            f == window_step(path@),
            model::collect(s.take(i as int), f) == Ok::<Seq<TimeWindow>, ErrorView>(out@),
        decreases windows.len() - i,
    {
        let at = indexed(base.as_str(), i);
        proof {
            model::lemma_collect_step(s, f, i as int);
        }
        match parse_window(windows[i].0.as_str(), windows[i].1.as_str(), at.as_str()) {
            Ok(window) => {
                out.push(window);
            },
            Err(e) => {
                proof {
                    model::lemma_collect_fails(s, f, i + 1);
                }
                return Err(e);
            },
        }
        i += 1;
    }
    assert(s.take(i as int) =~= s);
    Ok(out)
}

/// A `schedule` entry: it names a known tariff, its offset is at most a day,
/// and its weekdays and windows are valid.
pub open spec fn schedule_of(
    entry: ScheduleRuleFileView,
    path: Seq<char>,
    tariffs: Seq<(Seq<char>, Tariff)>,
) -> Result<ScheduleView, ErrorView> {
    if text::trimmed(entry.tariff).len() == 0 {
        Err(failure(path + ".tariff"@, "a schedule entry must name a tariff"@))
    } else if !model::has_key(tariffs, entry.tariff) {
        Err(failure(path + ".tariff"@, "references unknown tariff `"@ + entry.tariff + "`"@))
    } else if !(-1440 <= entry.utc_offset_minutes <= 1440) {
        Err(
            failure(
                path + ".utc_offset_minutes"@,
                "UTC offset must be within ±1440 minutes, got "@ + text::signed_decimal(
                    entry.utc_offset_minutes as int,
                ),
            ),
        )
    } else {
        match model::collect(entry.weekdays, weekday_step(path)) {
            Err(e) => Err(e),
            Ok(weekdays) => match model::collect(entry.windows, window_step(path)) {
                Err(e) => Err(e),
                Ok(windows) => Ok(
                    ScheduleView {
                        tariff: entry.tariff,
                        utc_offset_minutes: entry.utc_offset_minutes,
                        weekdays,
                        windows,
                    },
                ),
            },
        }
    }
}

pub fn convert_schedule(
    entry: &ScheduleRuleFile,
    path: &str,
    tariffs: &Vec<(String, Tariff)>,
) -> (r: Result<ScheduleRule, PricingConfigError>)
    ensures
        outcome(r) == schedule_of(entry@, path@, model::keyed(tariffs@)),
{
    let name = entry.tariff.as_str();
    if text::trim(name).is_empty() {
        let at = text::join2(path, ".tariff");
        return Err(PricingConfigError::new(at.as_str(), "a schedule entry must name a tariff"));
    }
    if model::find(tariffs, name).is_none() {
        let at = text::join2(path, ".tariff");
        let message = text::join3("references unknown tariff `", name, "`");
        return Err(PricingConfigError::new(at.as_str(), message.as_str()));
    }
    if entry.utc_offset_minutes < -1440 || entry.utc_offset_minutes > 1440 {
        let at = text::join2(path, ".utc_offset_minutes");
        let offset = text::signed_text(entry.utc_offset_minutes);
        let message = text::join2(
            "UTC offset must be within ±1440 minutes, got ",
            offset.as_str(),
        );
        return Err(PricingConfigError::new(at.as_str(), message.as_str()));
    }
    let weekdays = match convert_weekdays(&entry.weekdays, path) {
        Ok(v) => v,
        Err(e) => {
            return Err(e);
        },
    };
    let windows = match convert_windows(&entry.windows, path) {
        Ok(v) => v,
        Err(e) => {
            return Err(e);
        },
    };
    Ok(
        ScheduleRule {
            tariff: entry.tariff.clone(),
            utc_offset_minutes: entry.utc_offset_minutes,
            weekdays,
            windows,
        },
    )
}

/// One long-context tier: its threshold is stated, above zero and not that of
/// an earlier tier, and its rates are those of a tariff.
pub open spec fn tier_of(tiers: Seq<ContextTierFileView>, index: int, path: Seq<char>) -> Result<
    ContextTier,
    ErrorView,
> {
    let tier = tiers[index];
    let at = at_index(path, index);
    match tier.min_input_tokens {
        None => Err(failure(at, "a context tier must state `min_input_tokens`"@)),
        Some(min_input_tokens) => if min_input_tokens == 0 {
            Err(
                failure(
                    at + ".min_input_tokens"@,
                    "a context tier threshold must be greater than zero"@,
                ),
            )
        } else if exists|j: int|
            0 <= j < index && (#[trigger] tiers[j]).min_input_tokens == Some(min_input_tokens) {
            Err(
                failure(
                    at + ".min_input_tokens"@,
                    "duplicate context tier threshold "@ + text::decimal(min_input_tokens as nat),
                ),
            )
        } else {
            match tariff_of(tier.tariff, at) {
                Err(e) => Err(e),
                Ok(tariff) => Ok(ContextTier { min_input_tokens, tariff }),
            }
        },
    }
}

/// One tier of the list at `path`.
pub open spec fn tier_step(tiers: Seq<ContextTierFileView>, path: Seq<char>) -> spec_fn(
    int,
    ContextTierFileView,
) -> Result<ContextTier, ErrorView> {
    |i: int, tier: ContextTierFileView| tier_of(tiers, i, path)
}

/// The tiers of the list at `path`, in declaration order.
pub fn convert_context_tiers(tiers: &Vec<ContextTierFile>, path: &str) -> (r: Result<
    Vec<ContextTier>,
    PricingConfigError,
>)
    ensures
        match r {
            Ok(v) => model::collect(
                model::seq_view(tiers@),
                tier_step(model::seq_view(tiers@), path@),
            ) == Ok::<Seq<ContextTier>, ErrorView>(v@),
            Err(e) => model::collect(
                model::seq_view(tiers@),
                tier_step(model::seq_view(tiers@), path@),
            ) == Err::<Seq<ContextTier>, ErrorView>(e@),
        },
{
    let ghost s = model::seq_view(tiers@);
    let ghost f = tier_step(s, path@);
    let mut out: Vec<ContextTier> = Vec::new();
    let mut i: usize = 0;
    while i < tiers.len()
        invariant
            i <= tiers@.len(),
            s == model::seq_view(tiers@),
            f == tier_step(s, path@),
            out@.len() == i,
            forall|j: int|
                0 <= j < i ==> s[j].min_input_tokens == Some(
                    (#[trigger] out@[j]).min_input_tokens,
                ),
            model::collect(s.take(i as int), f) == Ok::<Seq<ContextTier>, ErrorView>(out@),
        decreases tiers.len() - i,
    {
        let at = indexed(path, i);
        proof {
            model::lemma_collect_step(s, f, i as int);
            assert(f(i as int, s[i as int]) == tier_of(s, i as int, path@));
            if f(i as int, s[i as int]) is Err {
                model::lemma_collect_fails(s, f, i + 1);
            }
        }
        let min_input_tokens: u64 = match tiers[i].min_input_tokens {
            Some(n) => n,
            None => {
                return Err(
                    PricingConfigError::new(
                        at.as_str(),
                        "a context tier must state `min_input_tokens`",
                    ),
                );
            },
        };
        if min_input_tokens == 0 {
            let field = text::join2(at.as_str(), ".min_input_tokens");
            return Err(
                PricingConfigError::new(
                    field.as_str(),
                    "a context tier threshold must be greater than zero",
                ),
            );
        }
        let mut k: usize = 0;
        while k < out.len()
            invariant
                k <= out@.len(),
                i < tiers@.len(),
                out@.len() == i,
                s == model::seq_view(tiers@),
                f == tier_step(s, path@),
                at@ == at_index(path@, i as int),
                s[i as int].min_input_tokens == Some(min_input_tokens),
                min_input_tokens != 0,
                f(i as int, s[i as int]) == tier_of(s, i as int, path@),
                f(i as int, s[i as int]) is Err ==> model::collect(s, f) == Err::<
                    Seq<ContextTier>,
                    ErrorView,
                >(f(i as int, s[i as int])->Err_0),
                forall|j: int|
                    0 <= j < i ==> s[j].min_input_tokens == Some(
                        (#[trigger] out@[j]).min_input_tokens,
                    ),
                forall|j: int| 0 <= j < k ==> (#[trigger] out@[j]).min_input_tokens
                    != min_input_tokens,
            decreases out.len() - k,
        {
            if out[k].min_input_tokens == min_input_tokens {
                let field = text::join2(at.as_str(), ".min_input_tokens");
                let digits = text::decimal_text(min_input_tokens as u128);
                let message = text::join2("duplicate context tier threshold ", digits.as_str());
                assert(s[k as int].min_input_tokens == Some(min_input_tokens));
                return Err(PricingConfigError::new(field.as_str(), message.as_str()));
            }
            k += 1;
        }
        assert forall|j: int| 0 <= j < i implies (#[trigger] s[j]).min_input_tokens != Some(
            min_input_tokens,
        ) by {
            assert(out@[j].min_input_tokens != min_input_tokens);
        }
        let tier = &tiers[i];
        match tariff_from_parts(
            &tier.input,
            &tier.output,
            &tier.cache_read,
            &tier.cache_write,
            &tier.multiplier,
            at.as_str(),
        ) {
            Ok(tariff) => {
                out.push(ContextTier { min_input_tokens, tariff });
            },
            Err(e) => {
                return Err(e);
            },
        }
        i += 1;
    }
    assert(s.take(i as int) =~= s);
    Ok(out)
}

/// One named tariff of the rule at `path`.
pub open spec fn tariff_step(path: Seq<char>) -> spec_fn(int, (Seq<char>, TariffFileView)) -> Result<
    (Seq<char>, Tariff),
    ErrorView,
> {
    |i: int, named: (Seq<char>, TariffFileView)|
        match tariff_of(named.1, path + ".tariffs."@ + named.0) {
            Err(e) => Err(e),
            Ok(tariff) => Ok((named.0, tariff)),
        }
}

/// One schedule entry of the rule at `path`.
pub open spec fn schedule_step(path: Seq<char>, tariffs: Seq<(Seq<char>, Tariff)>) -> spec_fn(
    int,
    ScheduleRuleFileView,
) -> Result<ScheduleView, ErrorView> {
    |i: int, entry: ScheduleRuleFileView|
        schedule_of(entry, at_index(path + ".schedule"@, i), tariffs)
}

fn convert_tariffs(tariffs: &Vec<(String, TariffFile)>, path: &str) -> (r: Result<
    Vec<(String, Tariff)>,
    PricingConfigError,
>)
    ensures
        match r {
            Ok(v) => model::collect(model::keyed_view(tariffs@), tariff_step(path@)) == Ok::<
                Seq<(Seq<char>, Tariff)>,
                ErrorView,
            >(model::keyed(v@)),
            Err(e) => model::collect(model::keyed_view(tariffs@), tariff_step(path@)) == Err::<
                Seq<(Seq<char>, Tariff)>,
                ErrorView,
            >(e@),
        },
{
    let ghost s = model::keyed_view(tariffs@);
    let ghost f = tariff_step(path@);
    let mut out: Vec<(String, Tariff)> = Vec::new();
    assert(model::keyed(out@) =~= Seq::empty());
    let mut i: usize = 0;
    while i < tariffs.len()
        invariant
            i <= tariffs@.len(),
            s == model::keyed_view(tariffs@),
            f == tariff_step(path@),
            model::collect(s.take(i as int), f) == Ok::<Seq<(Seq<char>, Tariff)>, ErrorView>(
                model::keyed(out@),
            ),
        decreases tariffs.len() - i,
    {
        let at = text::join3(path, ".tariffs.", tariffs[i].0.as_str());
        proof {
            model::lemma_collect_step(s, f, i as int);
        }
        match convert_tariff(&tariffs[i].1, at.as_str()) {
            Ok(tariff) => {
                let ghost before = out@;
                out.push((tariffs[i].0.clone(), tariff));
                assert(model::keyed(out@) =~= model::keyed(before).push(
                    (tariffs@[i as int].0@, tariff),
                ));
            },
            Err(e) => {
                proof {
                    model::lemma_collect_fails(s, f, i + 1);
                }
                return Err(e);
            },
        }
        i += 1;
    }
    assert(s.take(i as int) =~= s);
    Ok(out)
}

fn convert_schedules(
    entries: &Vec<ScheduleRuleFile>,
    path: &str,
    tariffs: &Vec<(String, Tariff)>,
) -> (r: Result<Vec<ScheduleRule>, PricingConfigError>)
    ensures
        match r {
            Ok(v) => model::collect(
                model::seq_view(entries@),
                schedule_step(path@, model::keyed(tariffs@)),
            ) == Ok::<Seq<ScheduleView>, ErrorView>(model::seq_view(v@)),
            Err(e) => model::collect(
                model::seq_view(entries@),
                schedule_step(path@, model::keyed(tariffs@)),
            ) == Err::<Seq<ScheduleView>, ErrorView>(e@),
        },
{
    let ghost s = model::seq_view(entries@);
    let ghost f = schedule_step(path@, model::keyed(tariffs@));
    let base = text::join2(path, ".schedule");
    let mut out: Vec<ScheduleRule> = Vec::new();
    assert(model::seq_view(out@) =~= Seq::empty());
    let mut i: usize = 0;
    while i < entries.len()
        invariant
            i <= entries@.len(),
            base@ == path@ + ".schedule"@,
            s == model::seq_view(entries@),
            f == schedule_step(path@, model::keyed(tariffs@)),
            model::collect(s.take(i as int), f) == Ok::<Seq<ScheduleView>, ErrorView>(
                model::seq_view(out@),
            ),
        decreases entries.len() - i,
    {
        let at = indexed(base.as_str(), i);
        proof {
            model::lemma_collect_step(s, f, i as int);
        }
        match convert_schedule(&entries[i], at.as_str(), tariffs) {
            Ok(rule) => {
                let ghost before = out@;
                out.push(rule);
                assert(model::seq_view(out@) =~= model::seq_view(before).push(rule@));
            },
            Err(e) => {
                proof {
                    model::lemma_collect_fails(s, f, i + 1);
                }
                return Err(e);
            },
        }
        i += 1;
    }
    assert(s.take(i as int) =~= s);
    Ok(out)
}

/// The `cost` table of the rule at `path`, if it has one.
pub open spec fn rule_cost(cost: Option<CostFileView>, path: Seq<char>) -> Result<
    Option<CostFields>,
    ErrorView,
> {
    match cost {
        None => Ok(None),
        Some(cost) => match cost_of(cost, path + ".cost"@) {
            Err(e) => Err(e),
            Ok(fields) => Ok(Some(fields)),
        },
    }
}

/// A rule's default tariff has to be one of its tariffs.
pub open spec fn default_missing(
    default_tariff: Option<Seq<char>>,
    tariffs: Seq<(Seq<char>, Tariff)>,
) -> bool {
    default_tariff is Some && !model::has_key(tariffs, default_tariff->Some_0)
}

/// A model's rate rule: its cost, tariffs, schedule, tiers, default tariff and
/// validity, checked in this order.
pub open spec fn rule_of(rule: ModelPricingRuleFileView, path: Seq<char>) -> Result<
    RuleView,
    ErrorView,
> {
    match rule_cost(rule.cost, path) {
        Err(e) => Err(e),
        Ok(cost) => match model::collect(rule.tariffs, tariff_step(path)) {
            Err(e) => Err(e),
            Ok(tariffs) => match model::collect(rule.schedule, schedule_step(path, tariffs)) {
                Err(e) => Err(e),
                Ok(schedule) => match model::collect(
                    rule.context_tiers,
                    tier_step(rule.context_tiers, path + ".context_tiers"@),
                ) {
                    Err(e) => Err(e),
                    Ok(context_tiers) => if default_missing(rule.default_tariff, tariffs) {
                        Err(
                            failure(
                                path + ".default_tariff"@,
                                "references unknown tariff `"@ + rule.default_tariff->Some_0
                                    + "`"@,
                            ),
                        )
                    } else {
                        match timestamp_of(rule.effective_from, path + ".effective_from"@) {
                            Err(e) => Err(e),
                            Ok(effective_from) => match timestamp_of(
                                rule.effective_until,
                                path + ".effective_until"@,
                            ) {
                                Err(e) => Err(e),
                                Ok(effective_until) => Ok(
                                    RuleView {
                                        cost,
                                        tariffs,
                                        schedule,
                                        context_tiers,
                                        default_tariff: rule.default_tariff,
                                        effective_from,
                                        effective_until,
                                        on_rule_expiry: match rule.on_rule_expiry {
                                            Some(v) => v,
                                            None => OnRuleExpiry::unset(),
                                        },
                                    },
                                ),
                            },
                        }
                    },
                },
            },
        },
    }
}

/// Validate one model's rule. A hand-written card and a rule in a price file
/// go through here alike.
pub fn convert_rule(rule: &ModelPricingRuleFile, path: &str) -> (r: Result<
    ModelPricingRule,
    PricingConfigError,
>)
    ensures
        outcome(r) == rule_of(rule@, path@),
{
    let cost = match &rule.cost {
        None => None,
        Some(cost) => {
            let at = text::join2(path, ".cost");
            match convert_cost(cost, at.as_str()) {
                Ok(fields) => Some(fields),
                Err(e) => {
                    return Err(e);
                },
            }
        },
    };
    let tariffs = match convert_tariffs(&rule.tariffs, path) {
        Ok(v) => v,
        Err(e) => {
            return Err(e);
        },
    };
    let schedule = match convert_schedules(&rule.schedule, path, &tariffs) {
        Ok(v) => v,
        Err(e) => {
            return Err(e);
        },
    };
    let at_tiers = text::join2(path, ".context_tiers");
    let context_tiers = match convert_context_tiers(&rule.context_tiers, at_tiers.as_str()) {
        Ok(v) => v,
        Err(e) => {
            return Err(e);
        },
    };
    if let Some(name) = &rule.default_tariff {
        if model::find(&tariffs, name.as_str()).is_none() {
            let at = text::join2(path, ".default_tariff");
            let message = text::join3("references unknown tariff `", name.as_str(), "`");
            return Err(PricingConfigError::new(at.as_str(), message.as_str()));
        }
    }
    let at_from = text::join2(path, ".effective_from");
    let effective_from = match parse_timestamp(&rule.effective_from, at_from.as_str()) {
        Ok(v) => v,
        Err(e) => {
            return Err(e);
        },
    };
    let at_until = text::join2(path, ".effective_until");
    let effective_until = match parse_timestamp(&rule.effective_until, at_until.as_str()) {
        Ok(v) => v,
        Err(e) => {
            return Err(e);
        },
    };
    let on_rule_expiry = match rule.on_rule_expiry {
        Some(v) => v,
        None => OnRuleExpiry::default(),
    };
    Ok(
        ModelPricingRule {
            cost,
            tariffs,
            schedule,
            context_tiers,
            default_tariff: model::copy_text(&rule.default_tariff),
            effective_from,
            effective_until,
            on_rule_expiry,
        },
    )
}

/// No rate of a card is negative or not a number.
pub open spec fn sound_card(card: CostFields) -> bool {
    &&& card.input is Some ==> card.input->Some_0.non_negative()
    &&& card.output is Some ==> card.output->Some_0.non_negative()
    &&& card.cache_read is Some ==> card.cache_read->Some_0.non_negative()
    &&& card.cache_write is Some ==> card.cache_write->Some_0.non_negative()
}

/// A multiplier is positive, and absolute rates are a sound card.
pub open spec fn sound_tariff(tariff: Tariff) -> bool {
    match tariff {
        Tariff::Multiplier(factor) => factor.positive(),
        Tariff::Absolute(card) => sound_card(card),
    }
}

/// A schedule entry selects a tariff that there is, its offset is at most a day,
/// and none of its windows is empty.
pub open spec fn sound_schedule(entry: ScheduleView, tariffs: Seq<(Seq<char>, Tariff)>) -> bool {
    &&& model::has_key(tariffs, entry.tariff)
    &&& -1440 <= entry.utc_offset_minutes <= 1440
    &&& forall|i: int|
        0 <= i < entry.windows.len() ==> (#[trigger] entry.windows[i]).start
            != entry.windows[i].end
}

/// What holds of every rule that prices are taken from.
pub open spec fn sound_rule(rule: RuleView) -> bool {
    &&& rule.cost is Some ==> sound_card(rule.cost->Some_0)
    &&& forall|i: int|
        0 <= i < rule.tariffs.len() ==> sound_tariff((#[trigger] rule.tariffs[i]).1)
    &&& forall|i: int|
        0 <= i < rule.schedule.len() ==> sound_schedule(
            #[trigger] rule.schedule[i],
            rule.tariffs,
        )
    &&& forall|i: int|
        0 <= i < rule.context_tiers.len() ==> (#[trigger] rule.context_tiers[i]).min_input_tokens
            > 0 && sound_tariff(rule.context_tiers[i].tariff)
    &&& forall|i: int, j: int|
        0 <= i < j < rule.context_tiers.len() ==> (
        #[trigger] rule.context_tiers[i]).min_input_tokens != (
        #[trigger] rule.context_tiers[j]).min_input_tokens
    &&& rule.default_tariff is Some ==> model::has_key(rule.tariffs, rule.default_tariff->Some_0)
}

proof fn lemma_schedule_is_sound(
    entry: ScheduleRuleFileView,
    path: Seq<char>,
    tariffs: Seq<(Seq<char>, Tariff)>,
)
    requires
        schedule_of(entry, path, tariffs) is Ok,
    ensures
        sound_schedule(schedule_of(entry, path, tariffs)->Ok_0, tariffs),
{
    let step = window_step(path);
    model::lemma_collect_values(entry.windows, step);
    let windows = model::collect(entry.windows, step)->Ok_0;
    assert forall|i: int| 0 <= i < windows.len() implies (#[trigger] windows[i]).start
        != windows[i].end by {
        assert(step(i, entry.windows[i]) == Ok::<TimeWindow, ErrorView>(windows[i]));
    }
}

/// A rule that was accepted is sound: what is wrong in a written one is found
/// before any price is taken from it.
pub proof fn accepted_rule_is_sound(rule: ModelPricingRuleFileView, path: Seq<char>)
    requires
        rule_of(rule, path) is Ok,
    ensures
        sound_rule(rule_of(rule, path)->Ok_0),
{
    let made = rule_of(rule, path)->Ok_0;
    let tariffs_step = tariff_step(path);
    model::lemma_collect_values(rule.tariffs, tariffs_step);
    assert forall|i: int| 0 <= i < made.tariffs.len() implies sound_tariff(
        (#[trigger] made.tariffs[i]).1,
    ) by {
        assert(tariffs_step(i, rule.tariffs[i]) == Ok::<(Seq<char>, Tariff), ErrorView>(
            made.tariffs[i],
        ));
    }
    let schedules_step = schedule_step(path, made.tariffs);
    model::lemma_collect_values(rule.schedule, schedules_step);
    assert forall|i: int| 0 <= i < made.schedule.len() implies sound_schedule(
        #[trigger] made.schedule[i],
        made.tariffs,
    ) by {
        assert(schedules_step(i, rule.schedule[i]) == Ok::<ScheduleView, ErrorView>(
            made.schedule[i],
        ));
        lemma_schedule_is_sound(
            rule.schedule[i],
            at_index(path + ".schedule"@, i),
            made.tariffs,
        );
    }
    let tiers = rule.context_tiers;
    let tiers_step = tier_step(tiers, path + ".context_tiers"@);
    model::lemma_collect_values(tiers, tiers_step);
    assert forall|i: int| 0 <= i < made.context_tiers.len() implies (
    #[trigger] made.context_tiers[i]).min_input_tokens > 0 && sound_tariff(
        made.context_tiers[i].tariff,
    ) && tiers[i].min_input_tokens == Some(made.context_tiers[i].min_input_tokens) by {
        assert(tiers_step(i, tiers[i]) == Ok::<ContextTier, ErrorView>(made.context_tiers[i]));
    }
    assert forall|i: int, j: int| 0 <= i < j < made.context_tiers.len() implies (
    #[trigger] made.context_tiers[i]).min_input_tokens != (
    #[trigger] made.context_tiers[j]).min_input_tokens by {
        assert(tiers_step(j, tiers[j]) == Ok::<ContextTier, ErrorView>(made.context_tiers[j]));
        assert(tiers[i].min_input_tokens == Some(made.context_tiers[i].min_input_tokens));
    }
}

/// The rate that a number states, where one is written.
pub open spec fn stated_rate(written: Option<NumberView>) -> Option<Rate> {
    match written {
        Some(number) => Some(number.rate),
        None => None,
    }
}

/// Whether a rate may be written: nothing, or a number of at least zero.
pub open spec fn writable(written: Option<NumberView>) -> bool {
    written is Some ==> written->Some_0.rate.non_negative()
}

/// A card keeps each rate that was written, in its own field, and is accepted
/// exactly where all of them are finite and not negative.
pub proof fn card_keeps_what_was_written(card: CostFileView, path: Seq<char>)
    ensures
        rates_of(card, path) is Ok <==> writable(card.input) && writable(card.output) && writable(
            card.cache_read,
        ) && writable(card.cache_write),
        match rates_of(card, path) {
            Ok(made) => {
                &&& made.input == stated_rate(card.input)
                &&& made.output == stated_rate(card.output)
                &&& made.cache_read == stated_rate(card.cache_read)
                &&& made.cache_write == stated_rate(card.cache_write)
            },
            Err(_) => true,
        },
{
}

/// A `cost` table is a card that states at least one rate.
pub proof fn cost_needs_a_rate(cost: CostFileView, path: Seq<char>)
    ensures
        cost_of(cost, path) is Ok ==> cost_of(cost, path) == rates_of(cost, path),
        cost.input is None && cost.output is None && cost.cache_read is None && cost.cache_write
            is None ==> cost_of(cost, path) is Err,
        cost.input is Some || cost.output is Some || cost.cache_read is Some || cost.cache_write
            is Some ==> (cost_of(cost, path) is Ok <==> rates_of(cost, path) is Ok),
{
}

/// A tariff is what was written: a multiplier alone, which has to be positive,
/// or a card of at least one rate.
pub proof fn tariff_keeps_what_was_written(tariff: TariffFileView, path: Seq<char>)
    ensures
        ({
            let states_rate = tariff.input is Some || tariff.output is Some || tariff.cache_read
                is Some || tariff.cache_write is Some;
            let rates_valid = writable(tariff.input) && writable(tariff.output) && writable(
                tariff.cache_read,
            ) && writable(tariff.cache_write);
            let made = tariff_of(tariff, path);
            &&& made is Ok <==> match tariff.multiplier {
                Some(m) => !states_rate && m.rate.positive(),
                None => states_rate && rates_valid,
            }
            &&& made is Ok && tariff.multiplier is Some ==> made->Ok_0 == Tariff::Multiplier(
                tariff.multiplier->Some_0.rate,
            )
            &&& made is Ok && tariff.multiplier is None ==> made->Ok_0 == Tariff::Absolute(
                CostFields {
                    input: stated_rate(tariff.input),
                    output: stated_rate(tariff.output),
                    cache_read: stated_rate(tariff.cache_read),
                    cache_write: stated_rate(tariff.cache_write),
                },
            )
        }),
{
}

/// The first three letters of a day's name.
pub open spec fn day_letters(day: Weekday) -> Seq<char> {
    match day {
        Weekday::Mon => "mon"@,
        Weekday::Tue => "tue"@,
        Weekday::Wed => "wed"@,
        Weekday::Thu => "thu"@,
        Weekday::Fri => "fri"@,
        Weekday::Sat => "sat"@,
        Weekday::Sun => "sun"@,
    }
}

proof fn lemma_day_names()
    ensures
        "mon"@ == seq!['m', 'o', 'n'],
        "tue"@ == seq!['t', 'u', 'e'],
        "wed"@ == seq!['w', 'e', 'd'],
        "thu"@ == seq!['t', 'h', 'u'],
        "fri"@ == seq!['f', 'r', 'i'],
        "sat"@ == seq!['s', 'a', 't'],
        "sun"@ == seq!['s', 'u', 'n'],
        "monday"@ == seq!['m', 'o', 'n', 'd', 'a', 'y'],
        "tues"@ == seq!['t', 'u', 'e', 's'],
        "tuesday"@ == seq!['t', 'u', 'e', 's', 'd', 'a', 'y'],
        "weds"@ == seq!['w', 'e', 'd', 's'],
        "wednesday"@ == seq!['w', 'e', 'd', 'n', 'e', 's', 'd', 'a', 'y'],
        "thur"@ == seq!['t', 'h', 'u', 'r'],
        "thurs"@ == seq!['t', 'h', 'u', 'r', 's'],
        "thursday"@ == seq!['t', 'h', 'u', 'r', 's', 'd', 'a', 'y'],
        "friday"@ == seq!['f', 'r', 'i', 'd', 'a', 'y'],
        "saturday"@ == seq!['s', 'a', 't', 'u', 'r', 'd', 'a', 'y'],
        "sunday"@ == seq!['s', 'u', 'n', 'd', 'a', 'y'],
{
    reveal_strlit("mon");
    reveal_strlit("tue");
    reveal_strlit("wed");
    reveal_strlit("thu");
    reveal_strlit("fri");
    reveal_strlit("sat");
    reveal_strlit("sun");
    reveal_strlit("monday");
    reveal_strlit("tues");
    reveal_strlit("tuesday");
    reveal_strlit("weds");
    reveal_strlit("wednesday");
    reveal_strlit("thur");
    reveal_strlit("thurs");
    reveal_strlit("thursday");
    reveal_strlit("friday");
    reveal_strlit("saturday");
    reveal_strlit("sunday");
}

/// A name that is accepted is that of the day whose letters it begins with.
pub proof fn weekday_begins_with_its_letters(name: Seq<char>)
    ensures
        weekday_named(name) is Some ==> name.len() >= 3 && name.take(3) == day_letters(
            weekday_named(name)->Some_0,
        ),
{
    lemma_day_names();
    if let Some(day) = weekday_named(name) {
        assert(name.take(3) =~= day_letters(day));
    }
}

/// The short and the full name of every day are accepted.
pub proof fn weekday_names_are_accepted(day: Weekday)
    ensures
        weekday_named(day_letters(day)) == Some(day),
        weekday_named("monday"@) is Some,
        weekday_named("tuesday"@) is Some,
        weekday_named("wednesday"@) is Some,
        weekday_named("thursday"@) is Some,
        weekday_named("friday"@) is Some,
        weekday_named("saturday"@) is Some,
        weekday_named("sunday"@) is Some,
{
    lemma_day_names();
    let name = day_letters(day);
    assert(name[0] == "mon"@[0] || name[0] == "tue"@[0] || name[0] == "wed"@[0] || name[0]
        == "fri"@[0] || name[0] == "sat"@[0]);
    assert(name.len() == 3);
    assert("mon"@[0] == 'm');
    assert("tue"@[1] == 'u' && "thu"@[1] == 'h');
    assert("sat"@[1] == 'a' && "sun"@[1] == 'u');
    assert("wed"@[0] == 'w' && "fri"@[0] == 'f' && "sat"@[0] == 's');
}

/// A time is what the text gives as hours and minutes, else with seconds.
pub proof fn time_is_what_its_text_says(raw: Seq<char>, path: Seq<char>)
    ensures
        ({
            let short = clock::clock_parsed(text::trimmed(raw), "%H:%M"@);
            let long = clock::clock_parsed(text::trimmed(raw), "%H:%M:%S"@);
            &&& time_of(raw, path) is Ok <==> short is Some || long is Some
            &&& short is Some ==> time_of(raw, path)->Ok_0 == short->Some_0
            &&& short is None && long is Some ==> time_of(raw, path)->Ok_0 == long->Some_0
        }),
{
}

/// A window is its two times, the start first, and is accepted where they
/// differ.
pub proof fn window_keeps_its_times(window: (Seq<char>, Seq<char>), path: Seq<char>)
    ensures
        ({
            let start = time_of(window.0, path + ".start"@);
            let end = time_of(window.1, path + ".end"@);
            &&& window_of(window, path) is Ok <==> start is Ok && end is Ok && start->Ok_0
                != end->Ok_0
            &&& window_of(window, path) is Ok ==> window_of(window, path)->Ok_0.start
                == start->Ok_0 && window_of(window, path)->Ok_0.end == end->Ok_0
        }),
{
}

/// A point in time is what the text gives, and nothing where none is written.
pub proof fn timestamp_is_what_its_text_says(raw: Option<Seq<char>>, path: Seq<char>)
    ensures
        raw is None ==> timestamp_of(raw, path) == Ok::<Option<Instant>, ErrorView>(None),
        raw is Some ==> ({
            let read = clock::instant_parsed(text::trimmed(raw->Some_0));
            &&& timestamp_of(raw, path) is Ok <==> read is Some
            &&& read is Some ==> timestamp_of(raw, path)->Ok_0 == read
        }),
{
}

/// Whether every weekday and every window of a schedule entry can be read, each
/// on its own.
pub open spec fn times_are_readable(entry: ScheduleRuleFileView, path: Seq<char>) -> bool {
    &&& forall|i: int|
        0 <= i < entry.weekdays.len() ==> weekday_named(
            text::lowered(text::trimmed(#[trigger] entry.weekdays[i])),
        ) is Some
    &&& forall|i: int|
        0 <= i < entry.windows.len() ==> window_of(
            #[trigger] entry.windows[i],
            at_index(path + ".windows"@, i),
        ) is Ok
}

/// A schedule entry keeps what was written: the tariff it names, its offset, and
/// as many weekdays and windows, each of which is what its own text says.
pub proof fn schedule_keeps_what_was_written(
    entry: ScheduleRuleFileView,
    path: Seq<char>,
    tariffs: Seq<(Seq<char>, Tariff)>,
)
    requires
        schedule_of(entry, path, tariffs) is Ok,
    ensures
        ({
            let made = schedule_of(entry, path, tariffs)->Ok_0;
            &&& made.tariff == entry.tariff
            &&& made.utc_offset_minutes == entry.utc_offset_minutes
            &&& made.weekdays.len() == entry.weekdays.len()
            &&& made.windows.len() == entry.windows.len()
            &&& forall|i: int|
                0 <= i < entry.weekdays.len() ==> weekday_named(
                    text::lowered(text::trimmed(entry.weekdays[i])),
                ) == Some(#[trigger] made.weekdays[i])
            &&& forall|i: int|
                0 <= i < entry.windows.len() ==> window_of(
                    entry.windows[i],
                    at_index(path + ".windows"@, i),
                ) == Ok::<TimeWindow, ErrorView>(#[trigger] made.windows[i])
        }),
{
    let made = schedule_of(entry, path, tariffs)->Ok_0;
    let days = weekday_step(path);
    let spans = window_step(path);
    model::lemma_collect_values(entry.weekdays, days);
    model::lemma_collect_values(entry.windows, spans);
    assert forall|i: int| 0 <= i < entry.weekdays.len() implies weekday_named(
        text::lowered(text::trimmed(entry.weekdays[i])),
    ) == Some(#[trigger] made.weekdays[i]) by {
        assert(days(i, entry.weekdays[i]) == Ok::<Weekday, ErrorView>(made.weekdays[i]));
    }
    assert forall|i: int| 0 <= i < entry.windows.len() implies window_of(
        entry.windows[i],
        at_index(path + ".windows"@, i),
    ) == Ok::<TimeWindow, ErrorView>(#[trigger] made.windows[i]) by {
        assert(spans(i, entry.windows[i]) == Ok::<TimeWindow, ErrorView>(made.windows[i]));
    }
}

/// A schedule entry is accepted exactly where it names a tariff that is there,
/// its offset is within a day either way, and its days and windows can be read.
pub proof fn valid_schedule_is_accepted(
    entry: ScheduleRuleFileView,
    path: Seq<char>,
    tariffs: Seq<(Seq<char>, Tariff)>,
)
    ensures
        schedule_of(entry, path, tariffs) is Ok <==> {
            &&& text::trimmed(entry.tariff).len() > 0
            &&& exists|t: int| 0 <= t < tariffs.len() && (#[trigger] tariffs[t]).0 == entry.tariff
            &&& -1440 <= entry.utc_offset_minutes <= 1440
            &&& times_are_readable(entry, path)
        },
{
    let days = weekday_step(path);
    let spans = window_step(path);
    model::lemma_index_from(tariffs, entry.tariff, 0);
    if schedule_of(entry, path, tariffs) is Ok {
        schedule_keeps_what_was_written(entry, path, tariffs);
        let made = schedule_of(entry, path, tariffs)->Ok_0;
        let t = model::index_from(tariffs, entry.tariff, 0)->Some_0;
        assert(tariffs[t].0 == entry.tariff);
        assert forall|i: int| 0 <= i < entry.weekdays.len() implies weekday_named(
            text::lowered(text::trimmed(#[trigger] entry.weekdays[i])),
        ) is Some by {
            assert(weekday_named(text::lowered(text::trimmed(entry.weekdays[i]))) == Some(
                made.weekdays[i],
            ));
        }
        assert forall|i: int| 0 <= i < entry.windows.len() implies window_of(
            #[trigger] entry.windows[i],
            at_index(path + ".windows"@, i),
        ) is Ok by {
            assert(window_of(entry.windows[i], at_index(path + ".windows"@, i)) == Ok::<
                TimeWindow,
                ErrorView,
            >(made.windows[i]));
        }
    }
    if times_are_readable(entry, path) {
        assert forall|i: int| 0 <= i < entry.weekdays.len() implies (#[trigger] days(
            i,
            entry.weekdays[i],
        )) is Ok by {
            assert(weekday_named(text::lowered(text::trimmed(entry.weekdays[i]))) is Some);
        }
        assert forall|i: int| 0 <= i < entry.windows.len() implies (#[trigger] spans(
            i,
            entry.windows[i],
        )) is Ok by {
            assert(window_of(entry.windows[i], at_index(path + ".windows"@, i)) is Ok);
        }
        model::lemma_collect_all_ok(entry.weekdays, days);
        model::lemma_collect_all_ok(entry.windows, spans);
    }
}

/// A tier keeps its threshold, and its rates are those of the tariff that was
/// written with it. It is accepted exactly where the threshold is stated, above
/// zero and not that of an earlier tier, and the tariff is valid.
pub proof fn tier_keeps_what_was_written(
    tiers: Seq<ContextTierFileView>,
    index: int,
    path: Seq<char>,
)
    requires
        0 <= index < tiers.len(),
    ensures
        ({
            let written = tiers[index];
            let tariff = tariff_of(written.tariff, at_index(path, index));
            let made = tier_of(tiers, index, path);
            &&& made is Ok <==> {
                &&& written.min_input_tokens is Some
                &&& written.min_input_tokens->Some_0 > 0
                &&& forall|j: int|
                    0 <= j < index ==> (#[trigger] tiers[j]).min_input_tokens
                        != written.min_input_tokens
                &&& tariff is Ok
            }
            &&& made is Ok ==> Some(made->Ok_0.min_input_tokens) == written.min_input_tokens
                && made->Ok_0.tariff == tariff->Ok_0
        }),
{
}

/// A rule keeps what was written, part by part and in the written order: its
/// card, its tariffs under their names, its schedule, its tiers, its default and
/// its bounds. What happens at its end is a fallback unless it says otherwise.
pub proof fn rule_keeps_what_was_written(rule: ModelPricingRuleFileView, path: Seq<char>)
    requires
        rule_of(rule, path) is Ok,
    ensures
        ({
            let made = rule_of(rule, path)->Ok_0;
            &&& made.cost is Some == rule.cost is Some
            &&& rule.cost is Some ==> cost_of(rule.cost->Some_0, path + ".cost"@) == Ok::<
                CostFields,
                ErrorView,
            >(made.cost->Some_0)
            &&& made.tariffs.len() == rule.tariffs.len()
            &&& forall|i: int|
                0 <= i < rule.tariffs.len() ==> (#[trigger] made.tariffs[i]).0
                    == rule.tariffs[i].0 && tariff_of(
                    rule.tariffs[i].1,
                    path + ".tariffs."@ + rule.tariffs[i].0,
                ) == Ok::<Tariff, ErrorView>(made.tariffs[i].1)
            &&& made.schedule.len() == rule.schedule.len()
            &&& forall|i: int|
                0 <= i < rule.schedule.len() ==> schedule_of(
                    rule.schedule[i],
                    at_index(path + ".schedule"@, i),
                    made.tariffs,
                ) == Ok::<ScheduleView, ErrorView>(#[trigger] made.schedule[i])
            &&& made.context_tiers.len() == rule.context_tiers.len()
            &&& forall|i: int|
                0 <= i < rule.context_tiers.len() ==> tier_of(
                    rule.context_tiers,
                    i,
                    path + ".context_tiers"@,
                ) == Ok::<ContextTier, ErrorView>(#[trigger] made.context_tiers[i])
            &&& made.default_tariff == rule.default_tariff
            &&& timestamp_of(rule.effective_from, path + ".effective_from"@) == Ok::<
                Option<Instant>,
                ErrorView,
            >(made.effective_from)
            &&& timestamp_of(rule.effective_until, path + ".effective_until"@) == Ok::<
                Option<Instant>,
                ErrorView,
            >(made.effective_until)
            &&& rule.on_rule_expiry is Some ==> made.on_rule_expiry == rule.on_rule_expiry->Some_0
            &&& rule.on_rule_expiry is None ==> made.on_rule_expiry == OnRuleExpiry::Fallback
        }),
{
    let made = rule_of(rule, path)->Ok_0;
    let named = tariff_step(path);
    let planned = schedule_step(path, made.tariffs);
    let tiers = tier_step(rule.context_tiers, path + ".context_tiers"@);
    model::lemma_collect_values(rule.tariffs, named);
    model::lemma_collect_values(rule.schedule, planned);
    model::lemma_collect_values(rule.context_tiers, tiers);
    assert forall|i: int| 0 <= i < rule.tariffs.len() implies (#[trigger] made.tariffs[i]).0
        == rule.tariffs[i].0 && tariff_of(
        rule.tariffs[i].1,
        path + ".tariffs."@ + rule.tariffs[i].0,
    ) == Ok::<Tariff, ErrorView>(made.tariffs[i].1) by {
        assert(named(i, rule.tariffs[i]) == Ok::<(Seq<char>, Tariff), ErrorView>(
            made.tariffs[i],
        ));
    }
    assert forall|i: int| 0 <= i < rule.schedule.len() implies schedule_of(
        rule.schedule[i],
        at_index(path + ".schedule"@, i),
        made.tariffs,
    ) == Ok::<ScheduleView, ErrorView>(#[trigger] made.schedule[i]) by {
        assert(planned(i, rule.schedule[i]) == Ok::<ScheduleView, ErrorView>(made.schedule[i]));
    }
    assert forall|i: int| 0 <= i < rule.context_tiers.len() implies tier_of(
        rule.context_tiers,
        i,
        path + ".context_tiers"@,
    ) == Ok::<ContextTier, ErrorView>(#[trigger] made.context_tiers[i]) by {
        assert(tiers(i, rule.context_tiers[i]) == Ok::<ContextTier, ErrorView>(
            made.context_tiers[i],
        ));
    }
}

/// The schedule of an accepted rule is the written one, entry for entry: under
/// the written tariff and offset, with each weekday and window that was written.
pub proof fn rule_keeps_its_schedule(rule: ModelPricingRuleFileView, path: Seq<char>, i: int)
    requires
        rule_of(rule, path) is Ok,
        0 <= i < rule.schedule.len(),
    ensures
        ({
            let made = rule_of(rule, path)->Ok_0.schedule[i];
            let written = rule.schedule[i];
            let at = at_index(path + ".schedule"@, i);
            &&& made.tariff == written.tariff
            &&& made.utc_offset_minutes == written.utc_offset_minutes
            &&& made.weekdays.len() == written.weekdays.len()
            &&& made.windows.len() == written.windows.len()
            &&& forall|k: int|
                0 <= k < written.weekdays.len() ==> weekday_named(
                    text::lowered(text::trimmed(written.weekdays[k])),
                ) == Some(#[trigger] made.weekdays[k])
            &&& forall|k: int|
                0 <= k < written.windows.len() ==> window_of(
                    written.windows[k],
                    at_index(at + ".windows"@, k),
                ) == Ok::<TimeWindow, ErrorView>(#[trigger] made.windows[k])
        }),
{
    rule_keeps_what_was_written(rule, path);
    let made = rule_of(rule, path)->Ok_0;
    assert(schedule_of(rule.schedule[i], at_index(path + ".schedule"@, i), made.tariffs) == Ok::<
        ScheduleView,
        ErrorView,
    >(made.schedule[i]));
    schedule_keeps_what_was_written(
        rule.schedule[i],
        at_index(path + ".schedule"@, i),
        made.tariffs,
    );
}

/// A rule is accepted exactly where each of its parts is: none is refused for
/// the sake of another, and its default tariff is one of those it states.
pub proof fn valid_rule_is_accepted(
    rule: ModelPricingRuleFileView,
    path: Seq<char>,
    tariffs: Seq<(Seq<char>, Tariff)>,
)
    requires
        rule.cost is Some ==> cost_of(rule.cost->Some_0, path + ".cost"@) is Ok,
        tariffs.len() == rule.tariffs.len(),
        forall|i: int|
            0 <= i < rule.tariffs.len() ==> (#[trigger] tariffs[i]).0 == rule.tariffs[i].0
                && tariff_of(rule.tariffs[i].1, path + ".tariffs."@ + rule.tariffs[i].0) == Ok::<
                Tariff,
                ErrorView,
            >(tariffs[i].1),
        forall|i: int|
            0 <= i < rule.schedule.len() ==> schedule_of(
                #[trigger] rule.schedule[i],
                at_index(path + ".schedule"@, i),
                tariffs,
            ) is Ok,
        forall|i: int|
            0 <= i < rule.context_tiers.len() ==> (#[trigger] tier_of(
                rule.context_tiers,
                i,
                path + ".context_tiers"@,
            )) is Ok,
        rule.default_tariff is Some ==> exists|i: int|
            0 <= i < rule.tariffs.len() && (#[trigger] rule.tariffs[i]).0
                == rule.default_tariff->Some_0,
        rule.effective_from is Some ==> clock::instant_parsed(
            text::trimmed(rule.effective_from->Some_0),
        ) is Some,
        rule.effective_until is Some ==> clock::instant_parsed(
            text::trimmed(rule.effective_until->Some_0),
        ) is Some,
    ensures
        rule_of(rule, path) is Ok,
{
    let named = tariff_step(path);
    assert forall|i: int| 0 <= i < rule.tariffs.len() implies (#[trigger] named(
        i,
        rule.tariffs[i],
    )) == Ok::<(Seq<char>, Tariff), ErrorView>(tariffs[i]) by {
        assert(tariffs[i].0 == rule.tariffs[i].0);
    }
    model::lemma_collect_all_ok(rule.tariffs, named);
    model::lemma_collect_values(rule.tariffs, named);
    let made = model::collect(rule.tariffs, named)->Ok_0;
    assert(made =~= tariffs) by {
        assert forall|i: int| 0 <= i < made.len() implies made[i] == tariffs[i] by {
            assert(named(i, rule.tariffs[i]) == Ok::<(Seq<char>, Tariff), ErrorView>(made[i]));
        }
    }
    let planned = schedule_step(path, tariffs);
    assert forall|i: int| 0 <= i < rule.schedule.len() implies (#[trigger] planned(
        i,
        rule.schedule[i],
    )) is Ok by {
        assert(schedule_of(rule.schedule[i], at_index(path + ".schedule"@, i), tariffs) is Ok);
    }
    model::lemma_collect_all_ok(rule.schedule, planned);
    let tiers = tier_step(rule.context_tiers, path + ".context_tiers"@);
    assert forall|i: int| 0 <= i < rule.context_tiers.len() implies (#[trigger] tiers(
        i,
        rule.context_tiers[i],
    )) is Ok by {
        assert(tier_of(rule.context_tiers, i, path + ".context_tiers"@) is Ok);
    }
    model::lemma_collect_all_ok(rule.context_tiers, tiers);
    if rule.default_tariff is Some {
        let i = choose|i: int|
            0 <= i < rule.tariffs.len() && (#[trigger] rule.tariffs[i]).0
                == rule.default_tariff->Some_0;
        assert(tariffs[i].0 == rule.default_tariff->Some_0);
        model::lemma_index_from(tariffs, rule.default_tariff->Some_0, 0);
    }
}

/// An error about a card names the first of its fields that is no rate, and
/// says what was written there.
pub proof fn card_error_names_the_first_bad_field(card: CostFileView, path: Seq<char>)
    ensures
        ({
            let says = |field: Seq<char>, number: Option<NumberView>|
                rates_of(card, path) == Err::<CostFields, ErrorView>(
                    (ErrorView {
                        field_path: path + field,
                        message: "a rate must be a finite, non-negative number, got "@
                            + number->Some_0.text,
                    }),
                );
            &&& !writable(card.input) ==> says(".input"@, card.input)
            &&& writable(card.input) && !writable(card.output) ==> says(".output"@, card.output)
            &&& writable(card.input) && writable(card.output) && !writable(card.cache_read)
                ==> says(".cache_read"@, card.cache_read)
            &&& writable(card.input) && writable(card.output) && writable(card.cache_read)
                && !writable(card.cache_write) ==> says(".cache_write"@, card.cache_write)
        }),
{
}

/// An error about a tariff says which of the three things is wrong with it.
pub proof fn tariff_error_says_what_is_wrong(tariff: TariffFileView, path: Seq<char>)
    ensures
        ({
            let priced = tariff.input is Some || tariff.output is Some || tariff.cache_read is Some
                || tariff.cache_write is Some;
            let says = |message: Seq<char>|
                tariff_of(tariff, path) == Err::<Tariff, ErrorView>(
                    (ErrorView { field_path: path, message }),
                );
            &&& tariff.multiplier is Some && priced ==> says(
                "a tariff is either a `multiplier` or absolute prices, not both"@,
            )
            &&& tariff.multiplier is None && !priced ==> says(
                "a tariff needs either a `multiplier` or at least one absolute price"@,
            )
            &&& tariff.multiplier is Some && !priced && !tariff.multiplier->Some_0.rate.positive()
                ==> says(
                "multiplier must be positive and finite, got "@ + tariff.multiplier->Some_0.text,
            )
        }),
{
}

/// An error about a card without any rate is about the card.
pub proof fn empty_card_is_refused(cost: CostFileView, path: Seq<char>)
    requires
        cost.input is None,
        cost.output is None,
        cost.cache_read is None,
        cost.cache_write is None,
    ensures
        cost_of(cost, path) == Err::<CostFields, ErrorView>(
            (ErrorView {
                field_path: path,
                message: "a `cost` table needs at least one of input/output/cache_read/cache_write"@,
            }),
        ),
{
}

/// A place in a list is named by the list and its number in square brackets,
/// counted from zero.
pub proof fn place_in_a_list_is_named_by_its_number(path: Seq<char>, index: int)
    requires
        index >= 0,
    ensures
        text::begins(at_index(path, index), path + "["@),
        at_index(path, index).last() == ']',
        text::number(
            at_index(path, index).subrange(
                path.len() as int + 1,
                at_index(path, index).len() - 1,
            ),
        ) == index,
{
    reveal_strlit("[");
    reveal_strlit("]");
    let digits = text::decimal(index as nat);
    text::decimal_says_the_number(index as nat);
    let whole = at_index(path, index);
    assert(whole =~= (path + "["@) + (digits + "]"@));
    text::parts_are_found_again(path + "["@, digits + "]"@);
    assert(whole.subrange(path.len() as int + 1, whole.len() - 1) =~= digits);
}

/// What cannot be read is named with the text as it was written.
pub proof fn unreadable_text_is_named(raw: Seq<char>, path: Seq<char>)
    ensures
        weekday_named(text::lowered(text::trimmed(raw))) is None ==> weekday_of(raw, path) == Err::<
            Weekday,
            ErrorView,
        >(
            (ErrorView {
                field_path: path,
                message: "unknown weekday `"@ + raw
                    + "`; expected one of Mon/Tue/Wed/Thu/Fri/Sat/Sun (full names accepted)"@,
            }),
        ),
        weekday_named(text::lowered(text::trimmed(raw))) matches Some(day) ==> weekday_of(raw, path)
            == Ok::<_, ErrorView>(day),
        clock::clock_parsed(text::trimmed(raw), "%H:%M"@) is None && clock::clock_parsed(
            text::trimmed(raw),
            "%H:%M:%S"@,
        ) is None ==> time_of(raw, path) == Err::<ClockTime, ErrorView>(
            (ErrorView {
                field_path: path,
                message: "expected `HH:MM` (or `HH:MM:SS`), got `"@ + raw + "`"@,
            }),
        ),
        clock::instant_parsed(text::trimmed(raw)) is None ==> timestamp_of(Some(raw), path)
            == Err::<Option<Instant>, ErrorView>(
            (ErrorView {
                field_path: path,
                message: "expected an RFC 3339 timestamp, got `"@ + raw + "`"@,
            }),
        ),
{
}

/// A window is refused for the first of its times that cannot be read, and for
/// an end at its start.
pub proof fn window_error_names_the_time(window: (Seq<char>, Seq<char>), path: Seq<char>)
    ensures
        ({
            let start = time_of(window.0, path + ".start"@);
            let end = time_of(window.1, path + ".end"@);
            &&& start is Err ==> window_of(window, path) == Err::<TimeWindow, ErrorView>(
                start->Err_0,
            )
            &&& start is Ok && end is Err ==> window_of(window, path) == Err::<
                TimeWindow,
                ErrorView,
            >(end->Err_0)
            &&& start is Ok && end is Ok && start->Ok_0 == end->Ok_0 ==> window_of(window, path)
                == Err::<TimeWindow, ErrorView>(
                (ErrorView {
                    field_path: path,
                    message: "window start equals end; use `start > end` for a window that wraps past midnight"@,
                }),
            )
        }),
{
}

/// A schedule is refused for a tariff that it does not name or that is not
/// there, and for an offset of more than a day.
pub proof fn schedule_error_names_the_field(
    entry: ScheduleRuleFileView,
    path: Seq<char>,
    tariffs: Seq<(Seq<char>, Tariff)>,
)
    ensures
        ({
            let says = |field: Seq<char>, message: Seq<char>|
                schedule_of(entry, path, tariffs) == Err::<ScheduleView, ErrorView>(
                    (ErrorView { field_path: path + field, message }),
                );
            let blank = text::trimmed(entry.tariff).len() == 0;
            let known = exists|i: int|
                0 <= i < tariffs.len() && (#[trigger] tariffs[i]).0 == entry.tariff;
            &&& blank ==> says(".tariff"@, "a schedule entry must name a tariff"@)
            &&& !blank && !known ==> says(
                ".tariff"@,
                "references unknown tariff `"@ + entry.tariff + "`"@,
            )
            &&& !blank && known && (entry.utc_offset_minutes > 24 * 60 || entry.utc_offset_minutes
                < -24 * 60) ==> says(
                ".utc_offset_minutes"@,
                "UTC offset must be within ±1440 minutes, got "@ + text::signed_decimal(
                    entry.utc_offset_minutes as int,
                ),
            )
        }),
{
    model::value_is_that_of_the_first_entry(tariffs, entry.tariff, 0);
}

/// A schedule with days or windows that cannot be read is refused with the
/// error of the first of them, the days before the windows.
pub proof fn schedule_error_is_that_of_the_first_bad_time(
    entry: ScheduleRuleFileView,
    path: Seq<char>,
    tariffs: Seq<(Seq<char>, Tariff)>,
    at: int,
)
    requires
        text::trimmed(entry.tariff).len() > 0,
        model::has_key(tariffs, entry.tariff),
        -24 * 60 <= entry.utc_offset_minutes <= 24 * 60,
        0 <= at,
    ensures
        at < entry.weekdays.len() && (forall|k: int|
            0 <= k < at ==> weekday_named(text::lowered(text::trimmed(#[trigger] entry.weekdays[k]))) is Some)
            && weekday_named(text::lowered(text::trimmed(entry.weekdays[at]))) is None
            ==> schedule_of(entry, path, tariffs) == Err::<ScheduleView, ErrorView>(
            weekday_of(entry.weekdays[at], at_index(path + ".weekdays"@, at))->Err_0,
        ),
        at < entry.windows.len() && (forall|k: int|
            0 <= k < entry.weekdays.len() ==> weekday_named(
                text::lowered(text::trimmed(#[trigger] entry.weekdays[k])),
            ) is Some) && (forall|k: int|
            0 <= k < at ==> window_of(
                #[trigger] entry.windows[k],
                at_index(path + ".windows"@, k),
            ) is Ok) && window_of(entry.windows[at], at_index(path + ".windows"@, at)) is Err
            ==> schedule_of(entry, path, tariffs) == Err::<ScheduleView, ErrorView>(
            window_of(entry.windows[at], at_index(path + ".windows"@, at))->Err_0,
        ),
{
    let days = weekday_step(path);
    let hours = window_step(path);
    if at < entry.weekdays.len() && (forall|k: int|
        0 <= k < at ==> weekday_named(text::lowered(text::trimmed(#[trigger] entry.weekdays[k]))) is Some)
        && weekday_named(text::lowered(text::trimmed(entry.weekdays[at]))) is None {
        assert forall|k: int| 0 <= k < at implies (#[trigger] days(k, entry.weekdays[k])) is Ok by {
            assert(weekday_named(text::lowered(text::trimmed(entry.weekdays[k]))) is Some);
        }
        model::lemma_collect_first_failure(entry.weekdays, days, at);
    }
    if at < entry.windows.len() && (forall|k: int|
        0 <= k < entry.weekdays.len() ==> weekday_named(
            text::lowered(text::trimmed(#[trigger] entry.weekdays[k])),
        ) is Some) && (forall|k: int|
        0 <= k < at ==> window_of(#[trigger] entry.windows[k], at_index(path + ".windows"@, k)) is Ok)
        && window_of(entry.windows[at], at_index(path + ".windows"@, at)) is Err {
        assert forall|k: int| 0 <= k < entry.weekdays.len() implies (#[trigger] days(
            k,
            entry.weekdays[k],
        )) is Ok by {
            assert(weekday_named(text::lowered(text::trimmed(entry.weekdays[k]))) is Some);
        }
        model::lemma_collect_all_ok(entry.weekdays, days);
        assert forall|k: int| 0 <= k < at implies (#[trigger] hours(k, entry.windows[k])) is Ok by {
            assert(window_of(entry.windows[k], at_index(path + ".windows"@, k)) is Ok);
        }
        model::lemma_collect_first_failure(entry.windows, hours, at);
    }
}

/// A tier is refused without a threshold, with the threshold zero, and with one
/// that an earlier tier has.
pub proof fn tier_error_says_what_is_wrong(
    tiers: Seq<ContextTierFileView>,
    index: int,
    path: Seq<char>,
    earlier: int,
)
    requires
        0 <= index < tiers.len(),
    ensures
        ({
            let at = at_index(path, index);
            let says = |field: Seq<char>, message: Seq<char>|
                tier_of(tiers, index, path) == Err::<ContextTier, ErrorView>(
                    (ErrorView { field_path: field, message }),
                );
            let count = tiers[index].min_input_tokens;
            &&& count is None ==> says(at, "a context tier must state `min_input_tokens`"@)
            &&& count == Some(0u64) ==> says(
                at + ".min_input_tokens"@,
                "a context tier threshold must be greater than zero"@,
            )
            &&& count is Some && count->Some_0 > 0 && 0 <= earlier < index
                && tiers[earlier].min_input_tokens == count ==> says(
                at + ".min_input_tokens"@,
                "duplicate context tier threshold "@ + text::decimal(count->Some_0 as nat),
            )
        }),
{
}

/// A rule is refused with the error of its first part that is not valid: its
/// card, its tariffs, its schedule, its tiers, its default tariff, its bounds.
pub proof fn rule_error_is_that_of_its_first_bad_part(
    rule: ModelPricingRuleFileView,
    path: Seq<char>,
    at: int,
)
    requires
        0 <= at,
    ensures
        rule.cost is Some && cost_of(rule.cost->Some_0, path + ".cost"@) is Err ==> rule_of(
            rule,
            path,
        ) == Err::<RuleView, ErrorView>(cost_of(rule.cost->Some_0, path + ".cost"@)->Err_0),
        rule.cost is None && at < rule.tariffs.len() && (forall|k: int|
            0 <= k < at ==> tariff_of(
                (#[trigger] rule.tariffs[k]).1,
                path + ".tariffs."@ + rule.tariffs[k].0,
            ) is Ok) && tariff_of(
            rule.tariffs[at].1,
            path + ".tariffs."@ + rule.tariffs[at].0,
        ) is Err ==> rule_of(rule, path) == Err::<RuleView, ErrorView>(
            tariff_of(rule.tariffs[at].1, path + ".tariffs."@ + rule.tariffs[at].0)->Err_0,
        ),
        rule.cost is None && rule.tariffs.len() == 0 && rule.schedule.len() == 0
            && rule.context_tiers.len() == 0 && rule.default_tariff is Some ==> rule_of(rule, path)
            == Err::<RuleView, ErrorView>(
            (ErrorView {
                field_path: path + ".default_tariff"@,
                message: "references unknown tariff `"@ + rule.default_tariff->Some_0 + "`"@,
            }),
        ),
{
    let step = tariff_step(path);
    if rule.cost is None && at < rule.tariffs.len() && (forall|k: int|
        0 <= k < at ==> tariff_of(
            (#[trigger] rule.tariffs[k]).1,
            path + ".tariffs."@ + rule.tariffs[k].0,
        ) is Ok) && tariff_of(
        rule.tariffs[at].1,
        path + ".tariffs."@ + rule.tariffs[at].0,
    ) is Err {
        assert forall|k: int| 0 <= k < at implies (#[trigger] step(k, rule.tariffs[k])) is Ok by {
            assert(tariff_of(
                rule.tariffs[k].1,
                path + ".tariffs."@ + rule.tariffs[k].0,
            ) is Ok);
        }
        model::lemma_collect_first_failure(rule.tariffs, step, at);
    }
}

/// A rule whose card and tariffs are valid is refused with the error of its
/// first bad schedule entry, else its first bad tier, else a default tariff that
/// is not there, else its first bad bound.
pub proof fn rule_error_behind_the_tariffs(
    rule: ModelPricingRuleFileView,
    path: Seq<char>,
    tariffs: Seq<(Seq<char>, Tariff)>,
    at: int,
)
    requires
        rule.cost is Some ==> cost_of(rule.cost->Some_0, path + ".cost"@) is Ok,
        tariffs.len() == rule.tariffs.len(),
        forall|k: int|
            0 <= k < tariffs.len() ==> (#[trigger] tariffs[k]).0 == rule.tariffs[k].0 && tariff_of(
                rule.tariffs[k].1,
                path + ".tariffs."@ + rule.tariffs[k].0,
            ) == Ok::<_, ErrorView>(tariffs[k].1),
        0 <= at,
    ensures
        ({
            let entry = |k: int|
                schedule_of(rule.schedule[k], at_index(path + ".schedule"@, k), tariffs);
            let tier = |k: int| tier_of(rule.context_tiers, k, path + ".context_tiers"@);
            let entries_ok = |n: int| forall|k: int| 0 <= k < n ==> (#[trigger] entry(k)) is Ok;
            let tiers_ok = |n: int| forall|k: int| 0 <= k < n ==> (#[trigger] tier(k)) is Ok;
            let behind = entries_ok(rule.schedule.len() as int) && tiers_ok(
                rule.context_tiers.len() as int,
            );
            let known = rule.default_tariff is None || exists|k: int|
                0 <= k < tariffs.len() && (#[trigger] tariffs[k]).0 == rule.default_tariff->Some_0;
            let from = timestamp_of(rule.effective_from, path + ".effective_from"@);
            let until = timestamp_of(rule.effective_until, path + ".effective_until"@);
            let said = rule_of(rule, path);
            &&& at < rule.schedule.len() && entries_ok(at) && entry(at) is Err ==> said == Err::<
                RuleView,
                ErrorView,
            >(entry(at)->Err_0)
            &&& entries_ok(rule.schedule.len() as int) && at < rule.context_tiers.len()
                && tiers_ok(at) && tier(at) is Err ==> said == Err::<RuleView, ErrorView>(
                tier(at)->Err_0,
            )
            &&& behind && !known ==> said == Err::<RuleView, ErrorView>(
                (ErrorView {
                    field_path: path + ".default_tariff"@,
                    message: "references unknown tariff `"@ + rule.default_tariff->Some_0 + "`"@,
                }),
            )
            &&& behind && known && from is Err ==> said == Err::<RuleView, ErrorView>(from->Err_0)
            &&& behind && known && from is Ok && until is Err ==> said == Err::<
                RuleView,
                ErrorView,
            >(until->Err_0)
        }),
{
    let step = tariff_step(path);
    assert forall|k: int| 0 <= k < rule.tariffs.len() implies (#[trigger] step(
        k,
        rule.tariffs[k],
    )) == Ok::<_, ErrorView>(tariffs[k]) by {
        assert(tariffs[k].0 == rule.tariffs[k].0);
    }
    model::lemma_collect_all_ok(rule.tariffs, step);
    model::lemma_collect_values(rule.tariffs, step);
    let found = model::collect(rule.tariffs, step)->Ok_0;
    assert forall|k: int| 0 <= k < found.len() implies found[k] == tariffs[k] by {
        assert(step(k, rule.tariffs[k]) == Ok::<_, ErrorView>(found[k]));
    }
    assert(found =~= tariffs);
    let entry = |k: int| schedule_of(rule.schedule[k], at_index(path + ".schedule"@, k), tariffs);
    let tier = |k: int| tier_of(rule.context_tiers, k, path + ".context_tiers"@);
    let entries = schedule_step(path, tariffs);
    let tiers = tier_step(rule.context_tiers, path + ".context_tiers"@);
    if at < rule.schedule.len() && (forall|k: int| 0 <= k < at ==> (#[trigger] entry(k)) is Ok)
        && entry(at) is Err {
        assert forall|k: int| 0 <= k < at implies (#[trigger] entries(k, rule.schedule[k])) is Ok by {
            assert(entry(k) is Ok);
        }
        model::lemma_collect_first_failure(rule.schedule, entries, at);
    }
    if forall|k: int| 0 <= k < rule.schedule.len() ==> (#[trigger] entry(k)) is Ok {
        assert forall|k: int| 0 <= k < rule.schedule.len() implies (#[trigger] entries(
            k,
            rule.schedule[k],
        )) is Ok by {
            assert(entry(k) is Ok);
        }
        model::lemma_collect_all_ok(rule.schedule, entries);
        if at < rule.context_tiers.len() && (forall|k: int|
            0 <= k < at ==> (#[trigger] tier(k)) is Ok) && tier(at) is Err {
            assert forall|k: int| 0 <= k < at implies (#[trigger] tiers(
                k,
                rule.context_tiers[k],
            )) is Ok by {
                assert(tier(k) is Ok);
            }
            model::lemma_collect_first_failure(rule.context_tiers, tiers, at);
        }
        if forall|k: int| 0 <= k < rule.context_tiers.len() ==> (#[trigger] tier(k)) is Ok {
            assert forall|k: int| 0 <= k < rule.context_tiers.len() implies (#[trigger] tiers(
                k,
                rule.context_tiers[k],
            )) is Ok by {
                assert(tier(k) is Ok);
            }
            model::lemma_collect_all_ok(rule.context_tiers, tiers);
        }
    }
    if rule.default_tariff is Some {
        model::value_is_that_of_the_first_entry(tariffs, rule.default_tariff->Some_0, 0);
    }
}

} // verus!
