//! Validation of the whole `[pricing]` section.

use crate::config_types::{
    ModelPricingRuleFile, ModelPricingRuleFileView, Number, NumberView, PricingConfigFile,
    PricingConfigFileView, ProviderPricingFile, ProviderPricingFileView,
};
use crate::currency;
use crate::currency::Currency;
use crate::model;
use crate::pricing_config;
use crate::pricing_sources;
use crate::pricing_sources::{EnvView, PricingEnv};
use crate::rate::Rate;
use crate::rule_types;
use crate::rule_types::{
    ConfigView, ErrorView, ModelPricingRule, PricingConfig, PricingConfigError,
    ProviderPricing, ProviderView, RuleView,
};
use crate::text;
use vstd::prelude::*;

verus! {

/// The config path of a rate.
pub open spec fn fx_path(code: Seq<char>) -> Seq<char> {
    "pricing.fx_rates."@ + code
}

/// One exchange rate: a positive number.
pub open spec fn fx_of(entry: (Seq<char>, NumberView)) -> Result<(Seq<char>, Rate), ErrorView> {
    if entry.1.rate.positive() {
        Ok((currency::normal_code(entry.0), entry.1.rate))
    } else {
        Err(
            pricing_config::failure(
                fx_path(entry.0),
                "fx rate must be a positive, finite number, got "@ + entry.1.text,
            ),
        )
    }
}

pub open spec fn fx_step() -> spec_fn(int, (Seq<char>, NumberView)) -> Result<
    (Seq<char>, Rate),
    ErrorView,
> {
    |i: int, entry: (Seq<char>, NumberView)| fx_of(entry)
}

/// The warnings that the codes of the first `n` rates draw.
pub open spec fn fx_warnings(rates: Seq<(Seq<char>, NumberView)>, n: int, env: EnvView) -> Seq<
    Seq<char>,
>
    decreases n,
{
    if n <= 0 {
        Seq::empty()
    } else {
        fx_warnings(rates, n - 1, env) + pricing_sources::currency_warnings(
            rates[n - 1].0,
            fx_path(rates[n - 1].0),
            env,
        )
    }
}

/// Without a rate for USD, a base other than USD cannot be compared with any
/// price in USD.
pub open spec fn base_warnings(base: Seq<char>, rates: Map<Seq<char>, Rate>) -> Seq<Seq<char>> {
    if base != currency::usd_code() && !rates.contains_key(currency::usd_code()) {
        seq![
            "pricing.fx_base: fx_base is `"@ + base
                + "` but `pricing.fx_rates` has no `USD` entry, so cross-currency ordering is disabled for every USD-priced route (they keep their native currency and sort last); add `USD = <rate>` to compare them"@,
        ]
    } else {
        Seq::empty()
    }
}

/// The config path of a provider.
pub open spec fn provider_path(name: Seq<char>) -> Seq<char> {
    "pricing.providers."@ + name
}

pub open spec fn model_step(base: Seq<char>) -> spec_fn(
    int,
    (Seq<char>, ModelPricingRuleFileView),
) -> Result<(Seq<char>, RuleView), ErrorView> {
    |i: int, named: (Seq<char>, ModelPricingRuleFileView)|
        match pricing_config::rule_of(named.1, base + ".models."@ + named.0) {
            Err(e) => Err(e),
            Ok(rule) => Ok((named.0, rule)),
        }
}

/// What a provider with an empty `file` is told.
pub open spec fn empty_file() -> Seq<char> {
    "a provider `file` must not be empty; omit it to write the rules inline"@
}

/// The price file of a provider, if it names one.
pub open spec fn provider_file(file: Option<Seq<char>>, base: Seq<char>, env: EnvView) -> Result<
    Option<Seq<char>>,
    ErrorView,
> {
    match file {
        None => Ok(None),
        Some(raw) => match pricing_sources::location_of(raw, base + ".file"@, empty_file(), env) {
            Err(e) => Err(e),
            Ok(path) => Ok(Some(path)),
        },
    }
}

/// One provider: its file and its models' rules are valid.
pub open spec fn provider_of(named: (Seq<char>, ProviderPricingFileView), env: EnvView) -> Result<
    (Seq<char>, ProviderView),
    ErrorView,
> {
    let base = provider_path(named.0);
    match provider_file(named.1.file, base, env) {
        Err(e) => Err(e),
        Ok(file) => match model::collect(named.1.models, model_step(base)) {
            Err(e) => Err(e),
            Ok(models) => Ok(
                (
                    named.0,
                    ProviderView {
                        currency: match named.1.currency {
                            Some(code) => Some(currency::normal_code(code)),
                            None => None,
                        },
                        file,
                        models,
                    },
                ),
            ),
        },
    }
}

pub open spec fn provider_step(env: EnvView) -> spec_fn(
    int,
    (Seq<char>, ProviderPricingFileView),
) -> Result<(Seq<char>, ProviderView), ErrorView> {
    |i: int, named: (Seq<char>, ProviderPricingFileView)| provider_of(named, env)
}

/// The warnings that the currencies of the first `n` providers draw.
pub open spec fn provider_warnings(
    providers: Seq<(Seq<char>, ProviderPricingFileView)>,
    n: int,
    env: EnvView,
) -> Seq<Seq<char>>
    decreases n,
{
    if n <= 0 {
        Seq::empty()
    } else {
        provider_warnings(providers, n - 1, env) + match providers[n - 1].1.currency {
            Some(code) => pricing_sources::currency_warnings(
                code,
                provider_path(providers[n - 1].0) + ".currency"@,
                env,
            ),
            None => Seq::empty(),
        }
    }
}

/// The base currency of the section.
pub open spec fn base_of(file: PricingConfigFileView) -> Seq<char> {
    currency::normal_code(pricing_sources::stated_currency(file.fx_base))
}

/// The first thing that is wrong with the section: a rate, a provider, or a
/// source, in this order.
pub open spec fn section_error(file: PricingConfigFileView, env: EnvView) -> Option<ErrorView> {
    match model::collect(file.fx_rates, fx_step()) {
        Err(e) => Some(e),
        Ok(_) => match model::collect(file.providers, provider_step(env)) {
            Err(e) => Some(e),
            Ok(_) => match pricing_sources::sources_of(file.sources, env) {
                Err(e) => Some(e),
                Ok(_) => None,
            },
        },
    }
}

/// The exchange rates of a section without an error.
pub open spec fn section_rates(file: PricingConfigFileView) -> Map<Seq<char>, Rate> {
    rule_types::rate_table(model::collect(file.fx_rates, fx_step())->Ok_0)
}

/// Everything that a section without an error warns about, in order.
pub open spec fn section_warnings(file: PricingConfigFileView, env: EnvView) -> Seq<Seq<char>> {
    pricing_sources::currency_warnings(
        pricing_sources::stated_currency(file.fx_base),
        "pricing.fx_base"@,
        env,
    ) + fx_warnings(file.fx_rates, file.fx_rates.len() as int, env) + base_warnings(
        base_of(file),
        section_rates(file),
    ) + provider_warnings(file.providers, file.providers.len() as int, env)
        + pricing_sources::source_warnings(file.sources, file.sources.len() as int, env)
}

/// The config is what a section without an error says.
pub open spec fn section_is(config: ConfigView, file: PricingConfigFileView, env: EnvView) -> bool {
    &&& config.fx_base == base_of(file)
    &&& config.fx_rates == section_rates(file)
    &&& model::collect(file.providers, provider_step(env)) == Ok::<
        Seq<(Seq<char>, ProviderView)>,
        ErrorView,
    >(config.providers)
    &&& pricing_sources::in_resolution_order(config.sources)
    &&& config.sources.to_multiset() == pricing_sources::sources_of(
        file.sources,
        env,
    )->Ok_0.to_multiset()
}

proof fn lemma_replace_rate(entries: Seq<(Seq<char>, Rate)>, at: int, rate: Rate)
    requires
        0 <= at < entries.len(),
        forall|j: int| at < j < entries.len() ==> (#[trigger] entries[j]).0 != entries[at].0,
    ensures
        rule_types::rate_table(entries.update(at, (entries[at].0, rate)))
            =~= rule_types::rate_table(entries).insert(entries[at].0, rate),
    decreases entries.len(),
{
    let code = entries[at].0;
    let updated = entries.update(at, (code, rate));
    if at == entries.len() - 1 {
        assert(updated.drop_last() =~= entries.drop_last());
    } else {
        assert(updated.drop_last() =~= entries.drop_last().update(at, (code, rate)));
        lemma_replace_rate(entries.drop_last(), at, rate);
        assert(updated.last() == entries.last());
    }
}

fn put_rate(entries: &mut Vec<(Currency, Rate)>, currency: Currency, rate: Rate)
    ensures
        rule_types::rate_table(rule_types::coded(final(entries)@)) == rule_types::rate_table(
            rule_types::coded(old(entries)@),
        ).insert(currency@, rate),
{
    let ghost before = rule_types::coded(entries@);
    let mut i: usize = entries.len();
    while i > 0
        invariant
            i <= entries@.len(),
            before == rule_types::coded(entries@),
            entries@ == old(entries)@,
            forall|j: int| i <= j < before.len() ==> (#[trigger] before[j]).0 != currency@,
        decreases i,
    {
        i -= 1;
        if entries[i].0.is(&currency) {
            assert(before[i as int].0 == currency@);
            proof {
                lemma_replace_rate(before, i as int, rate);
            }
            entries.set(i, (currency, rate));
            assert(rule_types::coded(entries@) =~= before.update(
                i as int,
                (before[i as int].0, rate),
            ));
            return;
        }
    }
    entries.push((currency, rate));
    assert(rule_types::coded(entries@).drop_last() =~= before);
}

fn has_usd(entries: &Vec<(Currency, Rate)>) -> (r: bool)
    ensures
        r == rule_types::rate_table(rule_types::coded(entries@)).contains_key(
            currency::usd_code(),
        ),
{
    let ghost all = rule_types::coded(entries@);
    let mut i: usize = 0;
    assert(all.take(0) =~= Seq::empty());
    while i < entries.len()
        invariant
            i <= entries@.len(),
            all == rule_types::coded(entries@),
            !rule_types::rate_table(all.take(i as int)).contains_key(currency::usd_code()),
        decreases entries.len() - i,
    {
        assert(all.take(i + 1).drop_last() =~= all.take(i as int));
        if entries[i].0.is_usd() {
            assert(rule_types::rate_table(all.take(i + 1)).contains_key(currency::usd_code()));
            proof {
                lemma_table_grows(all, i + 1, currency::usd_code());
            }
            return true;
        }
        i += 1;
    }
    assert(all.take(i as int) =~= all);
    false
}

proof fn lemma_table_grows(entries: Seq<(Seq<char>, Rate)>, n: int, code: Seq<char>)
    requires
        0 <= n <= entries.len(),
        rule_types::rate_table(entries.take(n)).contains_key(code),
    ensures
        rule_types::rate_table(entries).contains_key(code),
    decreases entries.len() - n,
{
    if n < entries.len() {
        assert(entries.take(n + 1).drop_last() =~= entries.take(n));
        lemma_table_grows(entries, n + 1, code);
    } else {
        assert(entries.take(n) =~= entries);
    }
}

fn convert_rates(
    rates: &Vec<(String, Number)>,
    env: &PricingEnv,
    warnings: &mut Vec<String>,
) -> (r: Result<Vec<(Currency, Rate)>, PricingConfigError>)
    ensures
        ({
            let s = model::keyed_view(rates@);
            match r {
                Ok(v) => {
                    &&& model::collect(s, fx_step()) is Ok
                    &&& rule_types::rate_table(rule_types::coded(v@)) == rule_types::rate_table(
                        model::collect(s, fx_step())->Ok_0,
                    )
                    &&& model::seq_view(final(warnings)@) == model::seq_view(old(warnings)@)
                        + fx_warnings(s, s.len() as int, env@)
                },
                Err(e) => model::collect(s, fx_step()) == Err::<
                    Seq<(Seq<char>, Rate)>,
                    ErrorView,
                >(e@),
            }
        }),
{
    let ghost s = model::keyed_view(rates@);
    let ghost f = fx_step();
    let ghost start = model::seq_view(warnings@);
    let mut out: Vec<(Currency, Rate)> = Vec::new();
    assert(rule_types::coded(out@) =~= Seq::empty());
    assert(start =~= start + Seq::empty());
    let mut i: usize = 0;
    while i < rates.len()
        invariant
            i <= rates@.len(),
            s == model::keyed_view(rates@),
            f == fx_step(),
            start == model::seq_view(old(warnings)@),
            model::collect(s.take(i as int), f) is Ok,
            rule_types::rate_table(rule_types::coded(out@)) == rule_types::rate_table(
                model::collect(s.take(i as int), f)->Ok_0,
            ),
            model::seq_view(warnings@) == start + fx_warnings(s, i as int, env@),
        decreases rates.len() - i,
    {
        proof {
            model::lemma_collect_step(s, f, i as int);
        }
        let code = rates[i].0.as_str();
        let path = text::join2("pricing.fx_rates.", code);
        let ghost warned = model::seq_view(warnings@);
        let currency = pricing_sources::parse_currency(code, path.as_str(), env, warnings);
        let number = &rates[i].1;
        if !number.rate.is_positive() {
            let message = text::join2(
                "fx rate must be a positive, finite number, got ",
                number.text.as_str(),
            );
            proof {
                model::lemma_collect_fails(s, f, i + 1);
            }
            return Err(PricingConfigError::new(path.as_str(), message.as_str()));
        }
        proof {
            let done = model::collect(s.take(i as int), f)->Ok_0;
            let entry = (currency@, number.rate);
            assert(done.push(entry).drop_last() =~= done);
            assert(warned + pricing_sources::currency_warnings(code@, path@, env@) =~= start
                + fx_warnings(s, i + 1, env@));
        }
        put_rate(&mut out, currency, number.rate);
        i += 1;
    }
    assert(s.take(i as int) =~= s);
    Ok(out)
}

fn convert_models(models: &Vec<(String, ModelPricingRuleFile)>, base: &str) -> (r: Result<
    Vec<(String, ModelPricingRule)>,
    PricingConfigError,
>)
    ensures
        match r {
            Ok(v) => model::collect(model::keyed_view(models@), model_step(base@)) == Ok::<
                Seq<(Seq<char>, RuleView)>,
                ErrorView,
            >(model::keyed_view(v@)),
            Err(e) => model::collect(model::keyed_view(models@), model_step(base@)) == Err::<
                Seq<(Seq<char>, RuleView)>,
                ErrorView,
            >(e@),
        },
{
    let ghost s = model::keyed_view(models@);
    let ghost f = model_step(base@);
    let mut out: Vec<(String, ModelPricingRule)> = Vec::new();
    assert(model::keyed_view(out@) =~= Seq::empty());
    let mut i: usize = 0;
    while i < models.len()
        invariant
            i <= models@.len(),
            s == model::keyed_view(models@),
            f == model_step(base@),
            model::collect(s.take(i as int), f) == Ok::<Seq<(Seq<char>, RuleView)>, ErrorView>(
                model::keyed_view(out@),
            ),
        decreases models.len() - i,
    {
        proof {
            model::lemma_collect_step(s, f, i as int);
        }
        let path = text::join3(base, ".models.", models[i].0.as_str());
        match pricing_config::convert_rule(&models[i].1, path.as_str()) {
            Ok(rule) => {
                let ghost before = model::keyed_view(out@);
                out.push((models[i].0.clone(), rule));
                assert(model::keyed_view(out@) =~= before.push((s[i as int].0, rule@)));
            },
            Err(e) => {
                proof {
                    model::lemma_collect_fails(s, f, i + 1);
                }
                return Err(e);
            },
        }
        i += 1;
    }
    assert(s.take(i as int) =~= s);
    Ok(out)
}

fn convert_provider(
    name: &String,
    provider: &ProviderPricingFile,
    env: &PricingEnv,
    warnings: &mut Vec<String>,
) -> (r: Result<ProviderPricing, PricingConfigError>)
    ensures
        match r {
            Ok(p) => {
                &&& provider_of((name@, provider@), env@) == Ok::<
                    (Seq<char>, ProviderView),
                    ErrorView,
                >((name@, p@))
                &&& model::seq_view(final(warnings)@) == model::seq_view(old(warnings)@)
                    + match provider@.currency {
                    Some(code) => pricing_sources::currency_warnings(
                        code,
                        provider_path(name@) + ".currency"@,
                        env@,
                    ),
                    None => Seq::empty(),
                }
            },
            Err(e) => provider_of((name@, provider@), env@) == Err::<
                (Seq<char>, ProviderView),
                ErrorView,
            >(e@),
        },
{
    let base = text::join2("pricing.providers.", name.as_str());
    let currency = match &provider.currency {
        Some(code) => {
            let path = text::join2(base.as_str(), ".currency");
            Some(pricing_sources::parse_currency(code.as_str(), path.as_str(), env, warnings))
        },
        None => None,
    };
    assert(model::seq_view(old(warnings)@) =~= model::seq_view(old(warnings)@) + Seq::empty());
    let file = match &provider.file {
        Some(raw) => {
            let path = text::join2(base.as_str(), ".file");
            match pricing_sources::parse_location(
                raw.as_str(),
                path.as_str(),
                "a provider `file` must not be empty; omit it to write the rules inline",
                env,
            ) {
                Ok(location) => Some(location),
                Err(e) => {
                    return Err(e);
                },
            }
        },
        None => None,
    };
    let models = match convert_models(&provider.models, base.as_str()) {
        Ok(models) => models,
        Err(e) => {
            return Err(e);
        },
    };
    Ok(ProviderPricing { currency, file, models })
}

fn convert_providers(
    providers: &Vec<(String, ProviderPricingFile)>,
    env: &PricingEnv,
    warnings: &mut Vec<String>,
) -> (r: Result<Vec<(String, ProviderPricing)>, PricingConfigError>)
    ensures
        ({
            let s = model::keyed_view(providers@);
            match r {
                Ok(v) => {
                    &&& model::collect(s, provider_step(env@)) == Ok::<
                        Seq<(Seq<char>, ProviderView)>,
                        ErrorView,
                    >(model::keyed_view(v@))
                    &&& model::seq_view(final(warnings)@) == model::seq_view(old(warnings)@)
                        + provider_warnings(s, s.len() as int, env@)
                },
                Err(e) => model::collect(s, provider_step(env@)) == Err::<
                    Seq<(Seq<char>, ProviderView)>,
                    ErrorView,
                >(e@),
            }
        }),
{
    let ghost s = model::keyed_view(providers@);
    let ghost f = provider_step(env@);
    let ghost start = model::seq_view(warnings@);
    let mut out: Vec<(String, ProviderPricing)> = Vec::new();
    assert(model::keyed_view(out@) =~= Seq::empty());
    assert(start =~= start + Seq::empty());
    let mut i: usize = 0;
    while i < providers.len()
        invariant
            i <= providers@.len(),
            s == model::keyed_view(providers@),
            f == provider_step(env@),
            start == model::seq_view(old(warnings)@),
            model::collect(s.take(i as int), f) == Ok::<Seq<(Seq<char>, ProviderView)>, ErrorView>(
                model::keyed_view(out@),
            ),
            model::seq_view(warnings@) == start + provider_warnings(s, i as int, env@),
        decreases providers.len() - i,
    {
        proof {
            model::lemma_collect_step(s, f, i as int);
            assert(f(i as int, s[i as int]) == provider_of(s[i as int], env@));
        }
        match convert_provider(&providers[i].0, &providers[i].1, env, warnings) {
            Ok(provider) => {
                let ghost before = model::keyed_view(out@);
                out.push((providers[i].0.clone(), provider));
                assert(model::keyed_view(out@) =~= before.push((s[i as int].0, provider@)));
                assert(model::seq_view(warnings@) =~= start + provider_warnings(s, i + 1, env@));
            },
            Err(e) => {
                proof {
                    model::lemma_collect_fails(s, f, i + 1);
                }
                return Err(e);
            },
        }
        i += 1;
    }
    assert(s.take(i as int) =~= s);
    Ok(out)
}

/// Convert the raw `[pricing]` section into validated types.
///
/// Returns the config and the warnings that do not make it invalid, such as an
/// unrecognized currency code. The first error wins.
pub fn validate(file: &PricingConfigFile, env: &PricingEnv) -> (r: Result<
    (PricingConfig, Vec<String>),
    PricingConfigError,
>)
    ensures
        match r {
            Ok(v) => {
                &&& section_error(file@, env@) is None
                &&& section_is(v.0@, file@, env@)
                &&& model::seq_view(v.1@) == section_warnings(file@, env@)
            },
            Err(e) => section_error(file@, env@) == Some(e@),
        },
{
    let mut warnings: Vec<String> = Vec::new();
    assert(model::seq_view(warnings@) =~= Seq::empty());
    let written: &str = match &file.fx_base {
        Some(code) => code.as_str(),
        None => "USD",
    };
    let fx_base = pricing_sources::parse_currency(
        written,
        "pricing.fx_base",
        env,
        &mut warnings,
    );
    let fx_rates = match convert_rates(&file.fx_rates, env, &mut warnings) {
        Ok(rates) => rates,
        Err(e) => {
            return Err(e);
        },
    };
    let ghost warned = model::seq_view(warnings@);
    if !fx_base.is_usd() && !has_usd(&fx_rates) {
        let warning = text::join3(
            "pricing.fx_base: fx_base is `",
            fx_base.as_str(),
            "` but `pricing.fx_rates` has no `USD` entry, so cross-currency ordering is disabled for every USD-priced route (they keep their native currency and sort last); add `USD = <rate>` to compare them",
        );
        let ghost before = warnings@;
        warnings.push(warning);
        assert(model::seq_view(warnings@) =~= warned.push(warning@));
    }
    assert(model::seq_view(warnings@) =~= warned + base_warnings(fx_base@, section_rates(file@)));
    let providers = match convert_providers(&file.providers, env, &mut warnings) {
        Ok(providers) => providers,
        Err(e) => {
            return Err(e);
        },
    };
    let (sources, mut source_warnings) = match pricing_sources::convert_sources(
        &file.sources,
        env,
    ) {
        Ok(v) => v,
        Err(e) => {
            return Err(e);
        },
    };
    let ghost before = model::seq_view(warnings@);
    let ghost last = model::seq_view(source_warnings@);
    warnings.append(&mut source_warnings);
    assert(model::seq_view(warnings@) =~= before + last);
    assert(model::seq_view(warnings@) =~= section_warnings(file@, env@));
    Ok((PricingConfig { fx_base, fx_rates, providers, sources }, warnings))
}

/// A validated section has each provider once, where the file has.
pub proof fn providers_stay_distinct(
    config: ConfigView,
    file: PricingConfigFileView,
    env: EnvView,
)
    requires
        section_is(config, file, env),
        model::distinct_keys(file.providers),
    ensures
        model::distinct_keys(config.providers),
{
    model::collecting_keeps_keys_distinct(file.providers, provider_step(env));
}

/// An exchange rate is kept under its code in capital letters, and accepted where
/// it is a positive number.
pub proof fn exchange_rate_is_kept(entry: (Seq<char>, NumberView))
    ensures
        fx_of(entry) is Ok <==> entry.1.rate.positive(),
        fx_of(entry) is Ok ==> fx_of(entry)->Ok_0 == (
            text::uppered(text::trimmed(entry.0)),
            entry.1.rate,
        ),
{
}

/// A provider's section keeps what was written: its key, its currency in capital
/// letters where one is written, where its file is, and each of its models with
/// the rule that was written for it.
pub proof fn provider_keeps_what_was_written(
    named: (Seq<char>, ProviderPricingFileView),
    env: EnvView,
)
    requires
        provider_of(named, env) is Ok,
    ensures
        ({
            let made = provider_of(named, env)->Ok_0;
            let base = "pricing.providers."@ + named.0;
            &&& made.0 == named.0
            &&& made.1.currency == match named.1.currency {
                Some(code) => Some(text::uppered(text::trimmed(code))),
                None => None,
            }
            &&& made.1.file is Some == named.1.file is Some
            &&& named.1.file is Some ==> pricing_sources::location_of(
                named.1.file->Some_0,
                base + ".file"@,
                empty_file(),
                env,
            ) == Ok::<Seq<char>, ErrorView>(made.1.file->Some_0)
            &&& made.1.models.len() == named.1.models.len()
            &&& forall|i: int|
                0 <= i < named.1.models.len() ==> (#[trigger] made.1.models[i]).0
                    == named.1.models[i].0 && pricing_config::rule_of(
                    named.1.models[i].1,
                    base + ".models."@ + named.1.models[i].0,
                ) == Ok::<RuleView, ErrorView>(made.1.models[i].1)
        }),
{
    let made = provider_of(named, env)->Ok_0;
    let base = "pricing.providers."@ + named.0;
    let step = model_step(base);
    model::lemma_collect_values(named.1.models, step);
    assert forall|i: int| 0 <= i < named.1.models.len() implies (#[trigger] made.1.models[i]).0
        == named.1.models[i].0 && pricing_config::rule_of(
        named.1.models[i].1,
        base + ".models."@ + named.1.models[i].0,
    ) == Ok::<RuleView, ErrorView>(made.1.models[i].1) by {
        assert(step(i, named.1.models[i]) == Ok::<(Seq<char>, RuleView), ErrorView>(
            made.1.models[i],
        ));
    }
}

/// A provider's section is accepted exactly where its file can be resolved, if
/// it has one, and each of its rules is valid.
pub proof fn valid_provider_is_accepted(
    named: (Seq<char>, ProviderPricingFileView),
    env: EnvView,
)
    ensures
        provider_of(named, env) is Ok <==> {
            let base = "pricing.providers."@ + named.0;
            &&& named.1.file is Some ==> pricing_sources::location_of(
                named.1.file->Some_0,
                base + ".file"@,
                empty_file(),
                env,
            ) is Ok
            &&& forall|i: int|
                0 <= i < named.1.models.len() ==> pricing_config::rule_of(
                    (#[trigger] named.1.models[i]).1,
                    base + ".models."@ + named.1.models[i].0,
                ) is Ok
        },
{
    let base = "pricing.providers."@ + named.0;
    let step = model_step(base);
    if provider_of(named, env) is Ok {
        model::lemma_collect_values(named.1.models, step);
        assert forall|i: int| 0 <= i < named.1.models.len() implies pricing_config::rule_of(
            (#[trigger] named.1.models[i]).1,
            base + ".models."@ + named.1.models[i].0,
        ) is Ok by {
            assert(step(i, named.1.models[i]) is Ok);
        }
    } else if forall|i: int|
        0 <= i < named.1.models.len() ==> pricing_config::rule_of(
            (#[trigger] named.1.models[i]).1,
            base + ".models."@ + named.1.models[i].0,
        ) is Ok {
        assert forall|i: int| 0 <= i < named.1.models.len() implies (#[trigger] step(
            i,
            named.1.models[i],
        )) is Ok by {
            assert(pricing_config::rule_of(
                named.1.models[i].1,
                base + ".models."@ + named.1.models[i].0,
            ) is Ok);
        }
        model::lemma_collect_all_ok(named.1.models, step);
    }
}

/// The section is accepted exactly where every exchange rate, every provider and
/// the sources are: an error is about one of them.
pub proof fn valid_section_is_accepted(file: PricingConfigFileView, env: EnvView)
    ensures
        section_error(file, env) is None <==> {
            &&& forall|i: int|
                0 <= i < file.fx_rates.len() ==> (#[trigger] file.fx_rates[i]).1.rate.positive()
            &&& forall|i: int|
                0 <= i < file.providers.len() ==> provider_of(
                    #[trigger] file.providers[i],
                    env,
                ) is Ok
            &&& pricing_sources::sources_of(file.sources, env) is Ok
        },
{
    let rates = fx_step();
    let named = provider_step(env);
    if section_error(file, env) is None {
        model::lemma_collect_values(file.fx_rates, rates);
        model::lemma_collect_values(file.providers, named);
        assert forall|i: int| 0 <= i < file.fx_rates.len() implies (
        #[trigger] file.fx_rates[i]).1.rate.positive() by {
            assert(rates(i, file.fx_rates[i]) is Ok);
        }
        assert forall|i: int| 0 <= i < file.providers.len() implies provider_of(
            #[trigger] file.providers[i],
            env,
        ) is Ok by {
            assert(named(i, file.providers[i]) is Ok);
        }
    } else {
        if forall|i: int|
            0 <= i < file.fx_rates.len() ==> (#[trigger] file.fx_rates[i]).1.rate.positive() {
            assert forall|i: int| 0 <= i < file.fx_rates.len() implies (#[trigger] rates(
                i,
                file.fx_rates[i],
            )) is Ok by {
                assert(file.fx_rates[i].1.rate.positive());
            }
            model::lemma_collect_all_ok(file.fx_rates, rates);
        }
        if forall|i: int|
            0 <= i < file.providers.len() ==> provider_of(#[trigger] file.providers[i], env)
                is Ok {
            assert forall|i: int| 0 <= i < file.providers.len() implies (#[trigger] named(
                i,
                file.providers[i],
            )) is Ok by {
                assert(provider_of(file.providers[i], env) is Ok);
            }
            model::lemma_collect_all_ok(file.providers, named);
        }
    }
}

/// An accepted section keeps what was written: its base currency in capital
/// letters, every provider in its place, and as sources exactly the written ones.
pub proof fn section_keeps_what_was_written(
    config: ConfigView,
    file: PricingConfigFileView,
    env: EnvView,
)
    requires
        section_error(file, env) is None,
        section_is(config, file, env),
    ensures
        file.fx_base is Some ==> config.fx_base == text::uppered(
            text::trimmed(file.fx_base->Some_0),
        ),
        file.fx_base is None ==> config.fx_base == currency::normal_code("USD"@),
        config.providers.len() == file.providers.len(),
        forall|i: int|
            0 <= i < file.providers.len() ==> provider_of(file.providers[i], env) == Ok::<
                (Seq<char>, ProviderView),
                ErrorView,
            >(#[trigger] config.providers[i]),
        config.sources.to_multiset() == pricing_sources::sources_of(
            file.sources,
            env,
        )->Ok_0.to_multiset(),
{
    let named = provider_step(env);
    model::lemma_collect_values(file.providers, named);
    assert forall|i: int| 0 <= i < file.providers.len() implies provider_of(
        file.providers[i],
        env,
    ) == Ok::<(Seq<char>, ProviderView), ErrorView>(#[trigger] config.providers[i]) by {
        assert(named(i, file.providers[i]) == Ok::<(Seq<char>, ProviderView), ErrorView>(
            config.providers[i],
        ));
    }
}

/// An accepted section has the exchange rate that was written last for a code,
/// and none for a code that was not written.
pub proof fn section_keeps_its_exchange_rates(
    config: ConfigView,
    file: PricingConfigFileView,
    env: EnvView,
    code: Seq<char>,
    last: int,
)
    requires
        section_error(file, env) is None,
        section_is(config, file, env),
        -1 <= last < file.fx_rates.len(),
        last >= 0 ==> text::uppered(text::trimmed(file.fx_rates[last].0)) == code,
        forall|k: int|
            last < k < file.fx_rates.len() ==> text::uppered(
                text::trimmed((#[trigger] file.fx_rates[k]).0),
            ) != code,
    ensures
        last >= 0 ==> config.fx_rates.contains_key(code) && config.fx_rates[code]
            == file.fx_rates[last].1.rate,
        last < 0 ==> !config.fx_rates.contains_key(code),
{
    let rates = fx_step();
    model::lemma_collect_values(file.fx_rates, rates);
    let made = model::collect(file.fx_rates, rates)->Ok_0;
    assert forall|k: int| 0 <= k < made.len() implies #[trigger] made[k] == (
        text::uppered(text::trimmed(file.fx_rates[k].0)),
        file.fx_rates[k].1.rate,
    ) by {
        assert(rates(k, file.fx_rates[k]) == Ok::<(Seq<char>, Rate), ErrorView>(made[k]));
    }
    assert forall|k: int| last < k < made.len() implies (#[trigger] made[k]).0 != code by {
        assert(text::uppered(text::trimmed(file.fx_rates[k].0)) != code);
    }
    rule_types::table_has_the_last_rate_of_each_currency(made, code, last);
}

/// An exchange rate that is no positive number is named with its code and its
/// text as they were written.
pub proof fn exchange_rate_error_names_the_code(entry: (Seq<char>, NumberView))
    requires
        !entry.1.rate.positive(),
    ensures
        fx_of(entry) == Err::<(Seq<char>, Rate), ErrorView>(
            (ErrorView {
                field_path: "pricing.fx_rates."@ + entry.0,
                message: "fx rate must be a positive, finite number, got "@ + entry.1.text,
            }),
        ),
{
}

/// A section is refused with the error of its first exchange rate, else its
/// first provider, else its sources, that is not valid.
pub proof fn section_error_is_that_of_its_first_bad_part(
    file: PricingConfigFileView,
    env: EnvView,
    at: int,
)
    requires
        0 <= at,
    ensures
        at < file.fx_rates.len() && (forall|k: int|
            0 <= k < at ==> (#[trigger] file.fx_rates[k]).1.rate.positive())
            && !file.fx_rates[at].1.rate.positive() ==> section_error(file, env) == Some(
            fx_of(file.fx_rates[at])->Err_0,
        ),
        at < file.providers.len() && (forall|k: int|
            0 <= k < file.fx_rates.len() ==> (#[trigger] file.fx_rates[k]).1.rate.positive()) && (
        forall|k: int| 0 <= k < at ==> provider_of(#[trigger] file.providers[k], env) is Ok)
            && provider_of(file.providers[at], env) is Err ==> section_error(file, env) == Some(
            provider_of(file.providers[at], env)->Err_0,
        ),
        (forall|k: int|
            0 <= k < file.fx_rates.len() ==> (#[trigger] file.fx_rates[k]).1.rate.positive()) && (
        forall|k: int|
            0 <= k < file.providers.len() ==> provider_of(#[trigger] file.providers[k], env) is Ok)
            && pricing_sources::sources_of(file.sources, env) is Err ==> section_error(file, env)
            == Some(pricing_sources::sources_of(file.sources, env)->Err_0),
{
    let rates = fx_step();
    let sections = provider_step(env);
    if at < file.fx_rates.len() && (forall|k: int|
        0 <= k < at ==> (#[trigger] file.fx_rates[k]).1.rate.positive())
        && !file.fx_rates[at].1.rate.positive() {
        assert forall|k: int| 0 <= k < at implies (#[trigger] rates(k, file.fx_rates[k])) is Ok by {
            assert(file.fx_rates[k].1.rate.positive());
        }
        model::lemma_collect_first_failure(file.fx_rates, rates, at);
    }
    if forall|k: int| 0 <= k < file.fx_rates.len() ==> (#[trigger] file.fx_rates[k]).1.rate.positive() {
        assert forall|k: int| 0 <= k < file.fx_rates.len() implies (#[trigger] rates(
            k,
            file.fx_rates[k],
        )) is Ok by {
            assert(file.fx_rates[k].1.rate.positive());
        }
        model::lemma_collect_all_ok(file.fx_rates, rates);
        if at < file.providers.len() && (forall|k: int|
            0 <= k < at ==> provider_of(#[trigger] file.providers[k], env) is Ok) && provider_of(
            file.providers[at],
            env,
        ) is Err {
            assert forall|k: int| 0 <= k < at implies (#[trigger] sections(
                k,
                file.providers[k],
            )) is Ok by {
                assert(provider_of(file.providers[k], env) is Ok);
            }
            model::lemma_collect_first_failure(file.providers, sections, at);
        }
        if forall|k: int|
            0 <= k < file.providers.len() ==> provider_of(#[trigger] file.providers[k], env) is Ok {
            assert forall|k: int| 0 <= k < file.providers.len() implies (#[trigger] sections(
                k,
                file.providers[k],
            )) is Ok by {
                assert(provider_of(file.providers[k], env) is Ok);
            }
            model::lemma_collect_all_ok(file.providers, sections);
        }
    }
}

/// A provider's section is refused with the error of its file, else of the first
/// of its rules that is not valid.
pub proof fn provider_error_is_that_of_its_first_bad_part(
    named: (Seq<char>, ProviderPricingFileView),
    env: EnvView,
    at: int,
)
    requires
        0 <= at,
    ensures
        ({
            let base = "pricing.providers."@ + named.0;
            let place = pricing_sources::location_of(
                named.1.file->Some_0,
                base + ".file"@,
                "a provider `file` must not be empty; omit it to write the rules inline"@,
                env,
            );
            let models = named.1.models;
            &&& named.1.file is Some && place is Err ==> provider_of(named, env) == Err::<
                (Seq<char>, ProviderView),
                ErrorView,
            >(place->Err_0)
            &&& (named.1.file is None || place is Ok) && at < models.len() && (forall|k: int|
                0 <= k < at ==> pricing_config::rule_of(
                    (#[trigger] models[k]).1,
                    base + ".models."@ + models[k].0,
                ) is Ok) && pricing_config::rule_of(
                models[at].1,
                base + ".models."@ + models[at].0,
            ) is Err ==> provider_of(named, env) == Err::<(Seq<char>, ProviderView), ErrorView>(
                pricing_config::rule_of(
                    models[at].1,
                    base + ".models."@ + models[at].0,
                )->Err_0,
            )
        }),
{
    let base = "pricing.providers."@ + named.0;
    let models = named.1.models;
    let step = model_step(base);
    if at < models.len() && (forall|k: int|
        0 <= k < at ==> pricing_config::rule_of(
            (#[trigger] models[k]).1,
            base + ".models."@ + models[k].0,
        ) is Ok) && pricing_config::rule_of(
        models[at].1,
        base + ".models."@ + models[at].0,
    ) is Err {
        assert forall|k: int| 0 <= k < at implies (#[trigger] step(k, models[k])) is Ok by {
            assert(pricing_config::rule_of(
                models[k].1,
                base + ".models."@ + models[k].0,
            ) is Ok);
        }
        model::lemma_collect_first_failure(models, step, at);
    }
}

/// A base other than the dollar is warned about where no rate for the dollar is
/// written; otherwise not.
pub proof fn base_without_a_dollar_rate_is_warned_about(
    base: Seq<char>,
    rates: Map<Seq<char>, Rate>,
)
    ensures
        base == "USD"@ || rates.contains_key("USD"@) ==> base_warnings(base, rates).len() == 0,
        base != "USD"@ && !rates.contains_key("USD"@) ==> base_warnings(base, rates).len() == 1
            && base_warnings(base, rates)[0] == "pricing.fx_base: fx_base is `"@ + base
            + "` but `pricing.fx_rates` has no `USD` entry, so cross-currency ordering is disabled for every USD-priced route (they keep their native currency and sort last); add `USD = <rate>` to compare them"@,
{
}

/// Each exchange rate, and each provider that states a currency, draws the
/// warnings about its own code, in the order in which they are written.
pub proof fn section_warnings_stand_in_order(
    rates: Seq<(Seq<char>, NumberView)>,
    rate: (Seq<char>, NumberView),
    providers: Seq<(Seq<char>, ProviderPricingFileView)>,
    provider: (Seq<char>, ProviderPricingFileView),
    env: EnvView,
)
    ensures
        fx_warnings(rates.push(rate), rates.len() as int + 1, env) == fx_warnings(
            rates,
            rates.len() as int,
            env,
        ) + pricing_sources::currency_warnings(rate.0, "pricing.fx_rates."@ + rate.0, env),
        fx_warnings(Seq::empty(), 0, env).len() == 0,
        provider.1.currency is None ==> provider_warnings(
            providers.push(provider),
            providers.len() as int + 1,
            env,
        ) == provider_warnings(providers, providers.len() as int, env),
        provider.1.currency is Some ==> provider_warnings(
            providers.push(provider),
            providers.len() as int + 1,
            env,
        ) == provider_warnings(providers, providers.len() as int, env)
            + pricing_sources::currency_warnings(
            provider.1.currency->Some_0,
            "pricing.providers."@ + provider.0 + ".currency"@,
            env,
        ),
        provider_warnings(Seq::empty(), 0, env).len() == 0,
{
    lemma_fx_warnings_front(rates, rate, rates.len() as int, env);
    lemma_provider_warnings_front(providers, provider, providers.len() as int, env);
    let before = provider_warnings(providers, providers.len() as int, env);
    assert(before + Seq::<Seq<char>>::empty() =~= before);
}

proof fn lemma_fx_warnings_front(
    front: Seq<(Seq<char>, NumberView)>,
    last: (Seq<char>, NumberView),
    n: int,
    env: EnvView,
)
    requires
        n <= front.len(),
    ensures
        fx_warnings(front.push(last), n, env) == fx_warnings(front, n, env),
    decreases n,
{
    if n > 0 {
        lemma_fx_warnings_front(front, last, n - 1, env);
        assert(front.push(last)[n - 1] == front[n - 1]);
    }
}

proof fn lemma_provider_warnings_front(
    front: Seq<(Seq<char>, ProviderPricingFileView)>,
    last: (Seq<char>, ProviderPricingFileView),
    n: int,
    env: EnvView,
)
    requires
        n <= front.len(),
    ensures
        provider_warnings(front.push(last), n, env) == provider_warnings(front, n, env),
    decreases n,
{
    if n > 0 {
        lemma_provider_warnings_front(front, last, n - 1, env);
        assert(front.push(last)[n - 1] == front[n - 1]);
    }
}

/// The warnings of a section are exactly those about its base, its exchange
/// rates, the missing rate of the dollar, its providers and its sources.
pub proof fn every_warning_of_a_section_is_given(
    file: PricingConfigFileView,
    env: EnvView,
    warning: Seq<char>,
)
    ensures
        section_warnings(file, env).contains(warning) <==> {
            let base = match file.fx_base {
                Some(code) => code,
                None => "USD"@,
            };
            ||| pricing_sources::currency_warnings(base, "pricing.fx_base"@, env).contains(warning)
            ||| fx_warnings(file.fx_rates, file.fx_rates.len() as int, env).contains(warning)
            ||| base_warnings(text::uppered(text::trimmed(base)), section_rates(file)).contains(
                warning,
            )
            ||| provider_warnings(file.providers, file.providers.len() as int, env).contains(
                warning,
            )
            ||| pricing_sources::source_warnings(
                file.sources,
                file.sources.len() as int,
                env,
            ).contains(warning)
        },
{
    let base = pricing_sources::stated_currency(file.fx_base);
    let a = pricing_sources::currency_warnings(base, "pricing.fx_base"@, env);
    let b = fx_warnings(file.fx_rates, file.fx_rates.len() as int, env);
    let c = base_warnings(base_of(file), section_rates(file));
    let d = provider_warnings(file.providers, file.providers.len() as int, env);
    let e = pricing_sources::source_warnings(file.sources, file.sources.len() as int, env);
    lemma_in_either(a, b, warning);
    lemma_in_either(a + b, c, warning);
    lemma_in_either(a + b + c, d, warning);
    lemma_in_either(a + b + c + d, e, warning);
}

proof fn lemma_in_either(a: Seq<Seq<char>>, b: Seq<Seq<char>>, value: Seq<char>)
    ensures
        (a + b).contains(value) <==> a.contains(value) || b.contains(value),
{
    let all = a + b;
    if all.contains(value) {
        let k = choose|k: int| 0 <= k < all.len() && all[k] == value;
        if k < a.len() {
            assert(a[k] == value);
        } else {
            assert(b[k - a.len()] == value);
        }
    }
    if a.contains(value) {
        let k = choose|k: int| 0 <= k < a.len() && a[k] == value;
        assert(all[k] == value);
    }
    if b.contains(value) {
        let k = choose|k: int| 0 <= k < b.len() && b[k] == value;
        assert(all[k + a.len()] == value);
    }
}

} // verus!
