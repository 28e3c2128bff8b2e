//! The validated `[pricing]` view of the loaded config, kept per loaded config.
//!
//! Validation allocates and the route catalog asks for a price once per route,
//! so the view is kept against the identity of the loaded config, together with
//! the reason for a rejection. Two things follow: neither the validation nor
//! its warnings happen more than once per loaded config, and a counter tells
//! other keepers of prices exactly when the config in force has changed.

use crate::config_types::PricingConfigFile;
use crate::config_types::PricingConfigFileView;
use crate::model;
use crate::pricing_section;
use crate::pricing_sources::{EnvView, PricingEnv};
use crate::providers;
use crate::providers::{NamesView, Profile, ProfileView, VendorNames};
use crate::rule_types::{ConfigView, ErrorView, PricingConfig, PricingConfigError};
use crate::text;
use vstd::prelude::*;

verus! {

/// The kept view.
#[derive(Debug)]
pub struct PricingMemo {
    /// The loaded config that the view was built from.
    pub identity: Option<usize>,
    pub config: PricingConfig,
    /// Why the section was rejected, if it was.
    pub error: Option<PricingConfigError>,
    /// Changes exactly when another loaded config comes into force or a price
    /// file states other rates.
    pub generation: u64,
}

#[verifier::ext_equal]
pub struct MemoView {
    pub identity: Option<usize>,
    pub config: ConfigView,
    pub error: Option<ErrorView>,
    pub generation: u64,
}

impl View for PricingMemo {
    type V = MemoView;

    open spec fn view(&self) -> MemoView {
        MemoView {
            identity: self.identity,
            config: self.config@,
            error: model::opt_view(self.error),
            generation: self.generation,
        }
    }
}

/// The counter after one more change.
pub open spec fn next_generation(generation: u64) -> u64 {
    if generation == u64::MAX {
        0
    } else {
        (generation + 1) as u64
    }
}

/// The warning about a key that no provider identity matches.
pub open spec fn key_warning(key: Seq<char>) -> Seq<char> {
    "pricing config: pricing.providers."@ + key
        + ": no provider identity matches this key, so its rules apply only if a provider reports exactly this activity key (check for a typo)"@
}

/// The warnings that come with a section that is accepted.
pub open spec fn accepted_warnings(
    config: ConfigView,
    warnings: Seq<Seq<char>>,
    profiles: Seq<ProfileView>,
    names: NamesView,
) -> Seq<Seq<char>> {
    warnings.map_values(|w: Seq<char>| "pricing config: "@ + w) + providers::unknown_keys(
        providers::keys_of(config.providers),
        profiles,
        names,
    ).map_values(|key: Seq<char>| key_warning(key))
}

/// The warning about a section that is rejected.
pub open spec fn rejected_warning(error: ErrorView) -> Seq<char> {
    "ignoring invalid [pricing] config ("@ + (error.field_path + ": "@ + error.message)
        + "); falling back to models.dev"@
}

/// Whether `memo` holds the view of a section: the validated config, or nothing
/// configured and the reason.
pub open spec fn holds(memo: MemoView, file: PricingConfigFileView, env: EnvView) -> bool {
    match pricing_section::section_error(file, env) {
        None => pricing_section::section_is(memo.config, file, env) && memo.error is None,
        Some(error) => memo.config == PricingConfig::nothing() && memo.error == Some(error),
    }
}

/// The memo before and after the config in force was asked for, and the
/// warnings to log.
pub open spec fn refreshed(
    before: MemoView,
    after: MemoView,
    warnings: Seq<Seq<char>>,
    identity: usize,
    file: PricingConfigFileView,
    env: EnvView,
    profiles: Seq<ProfileView>,
    names: NamesView,
) -> bool {
    if before.identity == Some(identity) {
        after == before && warnings.len() == 0
    } else {
        &&& after.identity == Some(identity)
        &&& after.generation == next_generation(before.generation)
        &&& holds(after, file, env)
        &&& warnings == match pricing_section::section_error(file, env) {
            None => accepted_warnings(
                after.config,
                pricing_section::section_warnings(file, env),
                profiles,
                names,
            ),
            Some(error) => seq![rejected_warning(error)],
        }
    }
}

/// The warnings with `prefix` before each.
fn prefixed(prefix: &str, texts: &Vec<String>) -> (r: Vec<String>)
    ensures
        model::seq_view(r@) == model::seq_view(texts@).map_values(|t: Seq<char>| prefix@ + t),
{
    let mut out: Vec<String> = Vec::new();
    let mut i: usize = 0;
    while i < texts.len()
        invariant
            i <= texts@.len(),
            out@.len() == i,
            forall|k: int| 0 <= k < i ==> out@[k]@ == prefix@ + texts@[k]@,
        decreases texts.len() - i,
    {
        out.push(text::join2(prefix, texts[i].as_str()));
        i += 1;
    }
    assert(model::seq_view(out@) =~= model::seq_view(texts@).map_values(
        |t: Seq<char>| prefix@ + t,
    ));
    out
}

impl PricingMemo {
    /// Before any config was loaded.
    pub fn new() -> (r: PricingMemo)
        ensures
            r@ == blank(),
    {
        PricingMemo { identity: None, config: PricingConfig::default(), error: None, generation: 0 }
    }

    /// Note that the prices changed: another config is in force, or a price file
    /// states other rates than before.
    pub fn bump_pricing_generation(&mut self)
        ensures
            final(self)@ == (MemoView {
                generation: next_generation(old(self)@.generation),
                ..old(self)@
            }),
            final(self)@.generation != old(self)@.generation,
    {
        self.generation = if self.generation == u64::MAX {
            0
        } else {
            self.generation + 1
        };
    }

    /// Bring the view in step with the loaded config of the given identity, and
    /// return the warnings to log.
    pub fn refresh(
        &mut self,
        identity: usize,
        file: &PricingConfigFile,
        env: &PricingEnv,
        profiles: &Vec<Profile>,
        names: &VendorNames,
    ) -> (warnings: Vec<String>)
        ensures
            refreshed(
                old(self)@,
                final(self)@,
                model::seq_view(warnings@),
                identity,
                file@,
                env@,
                model::seq_view(profiles@),
                names@,
            ),
    {
        if let Some(kept) = self.identity {
            if kept == identity {
                return Vec::new();
            }
        }
        self.bump_pricing_generation();
        self.identity = Some(identity);
        match pricing_section::validate(file, env) {
            Ok((config, warnings)) => {
                let mut out = prefixed("pricing config: ", &warnings);
                let ghost first = model::seq_view(out@);
                let keys = providers::unmatchable_provider_keys(&config, profiles, names);
                let ghost all = model::seq_view(keys@);
                let mut i: usize = 0;
                while i < keys.len()
                    invariant
                        i <= keys@.len(),
                        all == model::seq_view(keys@),
                        model::seq_view(out@) == first + all.take(i as int).map_values(
                            |key: Seq<char>| key_warning(key),
                        ),
                    decreases keys.len() - i,
                {
                    let ghost before = model::seq_view(out@);
                    out.push(
                        text::join3(
                            "pricing config: pricing.providers.",
                            keys[i].as_str(),
                            ": no provider identity matches this key, so its rules apply only if a provider reports exactly this activity key (check for a typo)",
                        ),
                    );
                    assert(model::seq_view(out@) =~= before.push(key_warning(all[i as int])));
                    assert(all.take(i + 1).map_values(|key: Seq<char>| key_warning(key))
                        =~= all.take(i as int).map_values(
                        |key: Seq<char>| key_warning(key),
                    ).push(key_warning(all[i as int])));
                    i += 1;
                }
                assert(all.take(i as int) =~= all);
                self.config = config;
                self.error = None;
                out
            },
            Err(error) => {
                let reason = error.to_text();
                let mut out: Vec<String> = Vec::new();
                out.push(
                    text::join3(
                        "ignoring invalid [pricing] config (",
                        reason.as_str(),
                        "); falling back to models.dev",
                    ),
                );
                assert(model::seq_view(out@) =~= seq![rejected_warning(error@)]);
                self.config = PricingConfig::default();
                self.error = Some(error);
                out
            },
        }
    }
}

/// The validated view of the config that is loaded now, and the warnings to log.
pub fn pricing_config<'a>(
    memo: &'a mut PricingMemo,
    identity: usize,
    file: &PricingConfigFile,
    env: &PricingEnv,
    profiles: &Vec<Profile>,
    names: &VendorNames,
) -> (r: (&'a PricingConfig, Vec<String>))
    ensures
        refreshed(
            old(memo)@,
            final(memo)@,
            model::seq_view(r.1@),
            identity,
            file@,
            env@,
            model::seq_view(profiles@),
            names@,
        ),
        r.0@ == final(memo)@.config,
{
    let warnings = memo.refresh(identity, file, env, profiles, names);
    (&memo.config, warnings)
}

/// Why the section of the config that is loaded now was rejected, if it was, and
/// the warnings to log.
pub fn pricing_config_error<'a>(
    memo: &'a mut PricingMemo,
    identity: usize,
    file: &PricingConfigFile,
    env: &PricingEnv,
    profiles: &Vec<Profile>,
    names: &VendorNames,
) -> (r: (Option<&'a PricingConfigError>, Vec<String>))
    ensures
        refreshed(
            old(memo)@,
            final(memo)@,
            model::seq_view(r.1@),
            identity,
            file@,
            env@,
            model::seq_view(profiles@),
            names@,
        ),
        match r.0 {
            Some(error) => final(memo)@.error == Some(error@),
            None => final(memo)@.error is None,
        },
{
    let warnings = memo.refresh(identity, file, env, profiles, names);
    match &memo.error {
        Some(error) => (Some(error), warnings),
        None => (None, warnings),
    }
}

/// The counter of changes, once the config that is loaded now is in force, and
/// the warnings to log.
pub fn pricing_generation(
    memo: &mut PricingMemo,
    identity: usize,
    file: &PricingConfigFile,
    env: &PricingEnv,
    profiles: &Vec<Profile>,
    names: &VendorNames,
) -> (r: (u64, Vec<String>))
    ensures
        refreshed(
            old(memo)@,
            final(memo)@,
            model::seq_view(r.1@),
            identity,
            file@,
            env@,
            model::seq_view(profiles@),
            names@,
        ),
        r.0 == final(memo)@.generation,
{
    let warnings = memo.refresh(identity, file, env, profiles, names);
    (memo.generation, warnings)
}

/// Whether a memo holds the view of the config that its identity stands for,
/// where `loaded` says which section and surroundings each identity has. Before
/// any config was loaded nothing is configured.
pub open spec fn in_step(
    memo: MemoView,
    loaded: spec_fn(usize) -> (PricingConfigFileView, EnvView),
) -> bool {
    match memo.identity {
        Some(identity) => holds(memo, loaded(identity).0, loaded(identity).1),
        None => memo.config == PricingConfig::nothing() && memo.error is None,
    }
}

/// The view of a memo before any config was loaded.
pub open spec fn blank() -> MemoView {
    MemoView { identity: None, config: PricingConfig::nothing(), error: None, generation: 0 }
}

/// In every state a memo holds the view of its identity: it does at the start,
/// and a refresh or a changed price file keeps it so.
pub proof fn memo_is_in_step(
    before: MemoView,
    after: MemoView,
    warnings: Seq<Seq<char>>,
    identity: usize,
    loaded: spec_fn(usize) -> (PricingConfigFileView, EnvView),
    profiles: Seq<ProfileView>,
    names: NamesView,
)
    requires
        in_step(before, loaded),
        refreshed(
            before,
            after,
            warnings,
            identity,
            loaded(identity).0,
            loaded(identity).1,
            profiles,
            names,
        ),
    ensures
        in_step(blank(), loaded),
        in_step(after, loaded),
        in_step(
            MemoView { generation: next_generation(before.generation), ..before },
            loaded,
        ),
{
}

/// What is reported is about the config that is loaded now, whatever was loaded
/// before: a rejection if and only if its section is invalid, and then nothing
/// of the section is in the view.
pub proof fn report_is_about_the_loaded_config(
    before: MemoView,
    after: MemoView,
    warnings: Seq<Seq<char>>,
    identity: usize,
    loaded: spec_fn(usize) -> (PricingConfigFileView, EnvView),
    profiles: Seq<ProfileView>,
    names: NamesView,
)
    requires
        in_step(before, loaded),
        refreshed(
            before,
            after,
            warnings,
            identity,
            loaded(identity).0,
            loaded(identity).1,
            profiles,
            names,
        ),
    ensures
        after.identity == Some(identity),
        after.error == pricing_section::section_error(loaded(identity).0, loaded(identity).1),
        match after.error {
            Some(_) => after.config == PricingConfig::nothing(),
            None => pricing_section::section_is(
                after.config,
                loaded(identity).0,
                loaded(identity).1,
            ),
        },
{
}

/// Asking again for the same loaded config validates nothing, logs nothing and
/// does not count as a change.
pub proof fn same_config_is_validated_once(
    before: MemoView,
    first: MemoView,
    second: MemoView,
    warnings: Seq<Seq<char>>,
    again: Seq<Seq<char>>,
    identity: usize,
    file: PricingConfigFileView,
    env: EnvView,
    profiles: Seq<ProfileView>,
    names: NamesView,
)
    requires
        refreshed(before, first, warnings, identity, file, env, profiles, names),
        refreshed(first, second, again, identity, file, env, profiles, names),
    ensures
        second == first,
        again.len() == 0,
{
}

/// The counter changes exactly when another loaded config comes into force.
pub proof fn generation_changes_with_the_config(
    before: MemoView,
    after: MemoView,
    warnings: Seq<Seq<char>>,
    identity: usize,
    file: PricingConfigFileView,
    env: EnvView,
    profiles: Seq<ProfileView>,
    names: NamesView,
)
    requires
        refreshed(before, after, warnings, identity, file, env, profiles, names),
    ensures
        after.generation != before.generation <==> before.identity != Some(identity),
{
}

/// An invalid section is dropped whole: nothing of it is in the view.
pub proof fn rejected_section_is_dropped_whole(
    before: MemoView,
    after: MemoView,
    warnings: Seq<Seq<char>>,
    identity: usize,
    file: PricingConfigFileView,
    env: EnvView,
    profiles: Seq<ProfileView>,
    names: NamesView,
)
    requires
        refreshed(before, after, warnings, identity, file, env, profiles, names),
        before.identity != Some(identity),
        pricing_section::section_error(file, env) is Some,
    ensures
        after.config == PricingConfig::nothing(),
        after.error == pricing_section::section_error(file, env),
{
}

/// A warning about a provider's key names the key, and every warning names the
/// section.
pub proof fn warnings_name_what_they_are_about(
    config: ConfigView,
    warnings: Seq<Seq<char>>,
    profiles: Seq<ProfileView>,
    names: NamesView,
    i: int,
)
    requires
        0 <= i,
    ensures
        ({
            let all = accepted_warnings(config, warnings, profiles, names);
            let unknown = providers::unknown_keys(
                providers::keys_of(config.providers),
                profiles,
                names,
            );
            &&& all.len() == warnings.len() + unknown.len()
            &&& i < warnings.len() ==> all[i] == "pricing config: "@ + warnings[i]
            &&& i < unknown.len() ==> all[warnings.len() + i] == "pricing config: pricing.providers."@
                + unknown[i]
                + ": no provider identity matches this key, so its rules apply only if a provider reports exactly this activity key (check for a typo)"@
        }),
{
}

/// A rejected section is reported with the field and the reason.
pub proof fn rejection_names_the_field(error: ErrorView)
    ensures
        rejected_warning(error) == "ignoring invalid [pricing] config ("@ + (error.field_path
            + ": "@ + error.message) + "); falling back to models.dev"@,
{
}

/// Another loaded config raises the generation by one, and starts again after
/// the last number; the same one changes nothing.
pub proof fn generation_counts_the_loaded_configs(
    before: MemoView,
    after: MemoView,
    warnings: Seq<Seq<char>>,
    identity: usize,
    file: PricingConfigFileView,
    env: EnvView,
    profiles: Seq<ProfileView>,
    names: NamesView,
)
    requires
        refreshed(before, after, warnings, identity, file, env, profiles, names),
    ensures
        before.identity == Some(identity) ==> after.generation == before.generation
            && after.config == before.config && after.error == before.error,
        before.identity != Some(identity) && before.generation < u64::MAX ==> after.generation
            == before.generation + 1,
        before.identity != Some(identity) && before.generation == u64::MAX ==> after.generation
            == 0,
        after.identity == Some(identity),
{
}

} // verus!
