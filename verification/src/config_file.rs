//! The config file: loading it, changing it and saving it.
//!
//! A change reads the file anew, patches one setting and saves. The reading,
//! the deserialization and the writing are the caller's: each function here
//! takes what was read and gives what is to be written, and a file that could
//! not be read or parsed blocks every change, because saving defaults in its
//! place would erase what it holds.

use crate::model;
use crate::paths;
use crate::removals;
use crate::removals::Removals;
use crate::text;
use crate::toml_merge;
use crate::toml_tree;
use crate::toml_tree::{TomlDocument, TomlTable};
use crate::toml_value;
use crate::toml_value::Toml;
use vstd::prelude::*;

verus! {

/// The `[provider]` settings that are changed from within the program.
#[derive(Debug, Clone)]
pub struct ProviderConfig {
    pub copilot_premium: Option<String>,
    pub default_model: Option<String>,
    pub default_provider: Option<String>,
    pub openai_reasoning_effort: Option<String>,
    pub anthropic_reasoning_effort: Option<String>,
    pub openai_transport: Option<String>,
    pub openai_service_tier: Option<String>,
}

#[verifier::ext_equal]
pub struct ProviderView {
    pub copilot_premium: Option<Seq<char>>,
    pub default_model: Option<Seq<char>>,
    pub default_provider: Option<Seq<char>>,
    pub openai_reasoning_effort: Option<Seq<char>>,
    pub anthropic_reasoning_effort: Option<Seq<char>>,
    pub openai_transport: Option<Seq<char>>,
    pub openai_service_tier: Option<Seq<char>>,
}

impl View for ProviderConfig {
    type V = ProviderView;

    open spec fn view(&self) -> ProviderView {
        ProviderView {
            copilot_premium: model::opt_view(self.copilot_premium),
            default_model: model::opt_view(self.default_model),
            default_provider: model::opt_view(self.default_provider),
            openai_reasoning_effort: model::opt_view(self.openai_reasoning_effort),
            anthropic_reasoning_effort: model::opt_view(self.anthropic_reasoning_effort),
            openai_transport: model::opt_view(self.openai_transport),
            openai_service_tier: model::opt_view(self.openai_service_tier),
        }
    }
}

/// The `[display]` settings that are changed from within the program.
#[derive(Debug, Clone)]
pub struct DisplayConfig {
    pub centered: bool,
    /// The label of the reasoning display mode.
    pub reasoning_display: String,
    pub compact_notifications: bool,
    pub pin_todos: bool,
    pub show_agentgrep_output: bool,
    pub tool_call_details: bool,
}

#[verifier::ext_equal]
pub struct DisplayView {
    pub centered: bool,
    pub reasoning_display: Seq<char>,
    pub compact_notifications: bool,
    pub pin_todos: bool,
    pub show_agentgrep_output: bool,
    pub tool_call_details: bool,
}

impl View for DisplayConfig {
    type V = DisplayView;

    open spec fn view(&self) -> DisplayView {
        DisplayView {
            centered: self.centered,
            reasoning_display: self.reasoning_display@,
            compact_notifications: self.compact_notifications,
            pin_todos: self.pin_todos,
            show_agentgrep_output: self.show_agentgrep_output,
            tool_call_details: self.tool_call_details,
        }
    }
}

/// A global hotkey that launches the program in a directory.
#[derive(Debug, Clone)]
pub struct LaunchHotkeyEntry {
    pub chord: String,
    pub dir: String,
    pub label: String,
    pub self_dev: bool,
}

#[verifier::ext_equal]
pub struct HotkeyView {
    pub chord: Seq<char>,
    pub dir: Seq<char>,
    pub label: Seq<char>,
    pub self_dev: bool,
}

impl View for LaunchHotkeyEntry {
    type V = HotkeyView;

    open spec fn view(&self) -> HotkeyView {
        HotkeyView {
            chord: self.chord@,
            dir: self.dir@,
            label: self.label@,
            self_dev: self.self_dev,
        }
    }
}

#[derive(Debug, Clone)]
pub struct LaunchHotkeysConfig {
    pub entries: Vec<LaunchHotkeyEntry>,
    pub enabled: Option<bool>,
    /// The mapping was inferred once and is the user's from then on.
    pub imported: bool,
}

#[verifier::ext_equal]
pub struct HotkeysView {
    pub entries: Seq<HotkeyView>,
    pub enabled: Option<bool>,
    pub imported: bool,
}

impl View for LaunchHotkeysConfig {
    type V = HotkeysView;

    open spec fn view(&self) -> HotkeysView {
        HotkeysView {
            entries: model::seq_view(self.entries@),
            enabled: self.enabled,
            imported: self.imported,
        }
    }
}

/// The credentials of other programs that the user trusts.
#[derive(Debug, Clone)]
pub struct AuthConfig {
    pub trusted_external_sources: Vec<String>,
    pub trusted_external_source_paths: Vec<String>,
}

#[verifier::ext_equal]
pub struct AuthView {
    pub trusted_external_sources: Seq<Seq<char>>,
    pub trusted_external_source_paths: Seq<Seq<char>>,
}

impl View for AuthConfig {
    type V = AuthView;

    open spec fn view(&self) -> AuthView {
        AuthView {
            trusted_external_sources: model::seq_view(self.trusted_external_sources@),
            trusted_external_source_paths: model::seq_view(self.trusted_external_source_paths@),
        }
    }
}

/// Partner discovery.
#[derive(Debug, Clone)]
pub struct SponsorsConfig {
    pub enabled: bool,
    pub endpoint: String,
}

#[verifier::ext_equal]
pub struct SponsorsView {
    pub enabled: bool,
    pub endpoint: Seq<char>,
}

impl View for SponsorsConfig {
    type V = SponsorsView;

    open spec fn view(&self) -> SponsorsView {
        SponsorsView { enabled: self.enabled, endpoint: self.endpoint@ }
    }
}

/// The settings that are changed from within the program. What else the file
/// holds is not touched by a save.
#[derive(Debug, Clone)]
pub struct Config {
    pub provider: ProviderConfig,
    pub display: DisplayConfig,
    pub launch_hotkeys: LaunchHotkeysConfig,
    pub auth: AuthConfig,
    pub sponsors: SponsorsConfig,
}

#[verifier::ext_equal]
pub struct SettingsView {
    pub provider: ProviderView,
    pub display: DisplayView,
    pub launch_hotkeys: HotkeysView,
    pub auth: AuthView,
    pub sponsors: SponsorsView,
}

impl View for Config {
    type V = SettingsView;

    open spec fn view(&self) -> SettingsView {
        SettingsView {
            provider: self.provider@,
            display: self.display@,
            launch_hotkeys: self.launch_hotkeys@,
            auth: self.auth@,
            sponsors: self.sponsors@,
        }
    }
}

/// What reading or changing a config gave, as views.
pub open spec fn outcome(r: Result<Config, String>) -> Result<SettingsView, Seq<char>> {
    match r {
        Ok(c) => Ok(c@),
        Err(e) => Err(e@),
    }
}

/// A change of a config that was read; what could not be read is not changed.
pub open spec fn changed(
    loaded: Result<SettingsView, Seq<char>>,
    change: spec_fn(SettingsView) -> SettingsView,
) -> Result<SettingsView, Seq<char>> {
    match loaded {
        Ok(c) => Ok(change(c)),
        Err(e) => Err(e),
    }
}

/// The removals after a setting of a config that was read was cleared, or not.
pub open spec fn cleared(
    loaded: Result<SettingsView, Seq<char>>,
    pending: Seq<(Seq<char>, Seq<Seq<char>>)>,
    path: Option<Seq<char>>,
    clear: bool,
    dotted: Seq<char>,
) -> Seq<(Seq<char>, Seq<Seq<char>>)> {
    if loaded is Ok && clear {
        removals::declared(pending, path, dotted)
    } else {
        pending
    }
}

/// The view of optional borrowed text.
pub open spec fn str_view(value: Option<&str>) -> Option<Seq<char>> {
    match value {
        Some(s) => Some(s@),
        None => None,
    }
}

fn owned_text(value: Option<&str>) -> (r: Option<String>)
    ensures
        model::opt_view(r) == str_view(value),
{
    match value {
        Some(s) => Some(text::owned(s)),
        None => None,
    }
}

/// What the file says of partner discovery: how many keys its section has, and
/// the two that count.
#[derive(Debug)]
pub struct SponsorsSection {
    pub keys: usize,
    pub enabled: Option<bool>,
    pub endpoint: Option<String>,
}

#[verifier::ext_equal]
pub struct SectionView {
    pub keys: int,
    pub enabled: Option<bool>,
    pub endpoint: Option<Seq<char>>,
}

impl View for SponsorsSection {
    type V = SectionView;

    open spec fn view(&self) -> SectionView {
        SectionView {
            keys: self.keys as int,
            enabled: self.enabled,
            endpoint: model::opt_view(self.endpoint),
        }
    }
}

/// The `[sponsors]` section of a parsed file, where it is a table.
pub open spec fn section_of(parsed: Option<Toml>) -> Option<SectionView> {
    match parsed {
        Some(document) => match toml_value::toml_field_of(document, "sponsors"@) {
            Some(Toml::Table(entries)) => Some(
                SectionView {
                    keys: entries.len() as int,
                    enabled: match model::get(entries, "enabled"@) {
                        Some(Toml::Boolean(b)) => Some(b),
                        _ => None,
                    },
                    endpoint: match model::get(entries, "endpoint"@) {
                        Some(Toml::Text(s)) => Some(s),
                        _ => None,
                    },
                },
            ),
            _ => None,
        },
        None => None,
    }
}

/// Read the `[sponsors]` section of a file.
pub fn read_sponsors_section(raw: &str) -> (r: Option<SponsorsSection>)
    ensures
        model::opt_view(r) == section_of(toml_value::toml_value_parsed(raw@)),
{
    let document = match toml_value::parse_toml(raw) {
        Some(document) => document,
        None => {
            return None;
        },
    };
    let section = match toml_value::toml_field(&document, "sponsors") {
        Some(section) => section,
        None => {
            return None;
        },
    };
    let keys: usize = match toml_value::toml_entry_count(section) {
        Some(n) => n,
        None => {
            return None;
        },
    };
    let enabled = match toml_value::toml_field(section, "enabled") {
        Some(value) => toml_value::toml_bool(value),
        None => None,
    };
    let endpoint = match toml_value::toml_field(section, "endpoint") {
        Some(value) => match toml_value::toml_text(value) {
            Some(s) => Some(text::owned(s)),
            None => None,
        },
        None => None,
    };
    Some(SponsorsSection { keys, enabled, endpoint })
}

/// Whether a section was frozen by an earlier save: exactly the two keys, off,
/// with an endpoint that is a default. One that a user wrote by hand is
/// respected.
pub open spec fn frozen(section: Option<SectionView>, endpoints: Seq<Seq<char>>) -> bool {
    match section {
        Some(s) => s.keys == 2 && s.enabled == Some(false) && s.endpoint is Some
            && endpoints.contains(s.endpoint->Some_0),
        None => false,
    }
}

/// Whether a section was frozen by an earlier save, by the known default
/// endpoints.
pub fn is_frozen(section: &Option<SponsorsSection>, endpoints: &Vec<String>) -> (r: bool)
    ensures
        r == frozen(model::opt_view(*section), model::seq_view(endpoints@)),
{
    let section = match section {
        Some(section) => section,
        None => {
            return false;
        },
    };
    let off = match section.enabled {
        Some(enabled) => !enabled,
        None => false,
    };
    if section.keys != 2 || !off {
        return false;
    }
    let endpoint = match &section.endpoint {
        Some(endpoint) => endpoint,
        None => {
            return false;
        },
    };
    model::holds_text(endpoints, endpoint.as_str())
}

/// What is to be written: the merge into the file that is there, where there is
/// one, and the plain serialization.
#[derive(Debug)]
pub struct SaveDraft {
    pub path: String,
    pub merged: Option<String>,
    pub serialized: String,
}

impl SaveDraft {
    /// The text to write. A merge that the program itself would refuse to read
    /// is worse than a file without comments.
    pub fn content(self, merged_parses: bool) -> (r: String)
        ensures
            r@ == match self.merged {
                Some(merged) => if merged_parses {
                    merged@
                } else {
                    self.serialized@
                },
                None => self.serialized@,
            },
    {
        match self.merged {
            Some(merged) => if merged_parses {
                merged
            } else {
                self.serialized
            },
            None => self.serialized,
        }
    }
}

/// Whether a text is the merge of a serialized config into a file, in which none
/// of the paths is left and the comments at the end of the file are.
pub open spec fn merge_of(
    merged: Option<Seq<char>>,
    existing: Option<Seq<char>>,
    serialized: Seq<char>,
    paths: Seq<Seq<char>>,
    aliases: Seq<(Seq<char>, Seq<Seq<char>>)>,
) -> bool {
    match existing {
        None => merged is None,
        Some(existing) => match (
            toml_tree::toml_parsed(existing),
            toml_tree::toml_parsed(serialized),
        ) {
            (Some(file), Some(config)) => {
                let root = toml_merge::saved(file.root, config.root, paths, aliases);
                &&& merged is Some
                &&& toml_merge::writes(
                    merged->Some_0,
                    (TomlDocument { root, trailing: file.trailing }),
                )
                &&& forall|k: int|
                    0 <= k < paths.len() ==> toml_merge::path_at(root, #[trigger] paths[k]) is None
            },
            _ => merged is None,
        },
    }
}

/// A save keeps the white space and the comments behind the last entry of the
/// file: what is written ends with them.
pub proof fn comments_at_the_end_are_kept(
    merged: Option<Seq<char>>,
    existing: Seq<char>,
    serialized: Seq<char>,
    paths: Seq<Seq<char>>,
    aliases: Seq<(Seq<char>, Seq<Seq<char>>)>,
)
    requires
        merge_of(merged, Some(existing), serialized, paths, aliases),
        toml_tree::toml_parsed(existing) is Some,
        toml_tree::toml_parsed(serialized) is Some,
    ensures
        merged is Some,
        toml_tree::ends_with(
            merged->Some_0,
            toml_tree::toml_parsed(existing)->Some_0.trailing,
        ),
{
}

/// Whether the copy of the config that the program keeps is out of date.
#[derive(Debug, Clone, Copy, PartialEq, Eq, Structural)]
pub struct ConfigCache {
    pub stale: bool,
}

/// A launch hotkey that was inferred from the history of sessions.
#[derive(Debug, Clone)]
pub struct PlannedHotkey {
    pub chord: String,
    pub dir: String,
    pub label: String,
}

#[verifier::ext_equal]
pub struct PlannedView {
    pub chord: Seq<char>,
    pub dir: Seq<char>,
    pub label: Seq<char>,
}

impl View for PlannedHotkey {
    type V = PlannedView;

    open spec fn view(&self) -> PlannedView {
        PlannedView { chord: self.chord@, dir: self.dir@, label: self.label@ }
    }
}

/// Fewer sessions than this are no history.
pub const MIN_SESSIONS_TO_BAKE: usize = 3;

/// With this many sessions and still no repository, none is looked for again.
pub const GIVE_UP_SESSION_COUNT: usize = 50;

/// What to do about launch hotkeys.
#[derive(Debug)]
pub enum HotkeyBake {
    /// Keep the built-in ones and look again later.
    KeepDefaults,
    /// Keep the built-in ones and never look again: write an empty mapping.
    GiveUp,
    /// Write this mapping.
    Write(Vec<LaunchHotkeyEntry>),
}

pub enum BakeView {
    KeepDefaults,
    GiveUp,
    Write(Seq<HotkeyView>),
}

impl View for HotkeyBake {
    type V = BakeView;

    open spec fn view(&self) -> BakeView {
        match self {
            HotkeyBake::KeepDefaults => BakeView::KeepDefaults,
            HotkeyBake::GiveUp => BakeView::GiveUp,
            HotkeyBake::Write(entries) => BakeView::Write(model::seq_view(entries@)),
        }
    }
}

/// The hotkey that is written for a planned one: home keeps following the home
/// directory, and a repository is written as it is.
pub open spec fn baked(planned: PlannedView) -> HotkeyView {
    HotkeyView {
        chord: planned.chord,
        dir: if planned.label == "home"@ {
            "$HOME"@
        } else {
            planned.dir
        },
        label: planned.label,
        self_dev: false,
    }
}

/// How many entries of a plan are repositories: all but the home slot.
pub open spec fn repositories(plan: Seq<PlannedView>) -> nat
    decreases plan.len(),
{
    if plan.len() == 0 {
        0
    } else {
        repositories(plan.drop_last()) + if plan.last().label == "home"@ {
            0nat
        } else {
            1nat
        }
    }
}

/// What to do with a plan. One with fewer than two repositories would commit the
/// user to a layout that is all home; where there is none after many sessions,
/// none is looked for again.
pub open spec fn bake_of(plan: Seq<PlannedView>, session_count: usize) -> BakeView {
    if repositories(plan) == 0 && session_count >= GIVE_UP_SESSION_COUNT {
        BakeView::GiveUp
    } else if repositories(plan) < 2 {
        BakeView::KeepDefaults
    } else {
        BakeView::Write(plan.map_values(|p: PlannedView| baked(p)))
    }
}

impl Config {
    /// The config file in the program's directory.
    pub fn path(jcode_dir: Option<&str>) -> (r: Option<String>)
        ensures
            model::opt_view(r) == match str_view(jcode_dir) {
                Some(dir) => Some(paths::joined(dir, "config.toml"@)),
                None => None,
            },
    {
        match jcode_dir {
            Some(dir) => Some(paths::join_path(dir, "config.toml")),
            None => None,
        }
    }

    /// The config to run with: the one that was read, and the defaults where
    /// there is no file or a malformed one. What the environment states is laid
    /// over it by whoever reads the environment.
    pub fn load(found: Result<Option<Config>, String>, defaults: Config) -> (r: Config)
        ensures
            r@ == match found {
                Ok(Some(config)) => config@,
                _ => defaults@,
            },
    {
        match found {
            Ok(Some(config)) => config,
            _ => defaults,
        }
    }

    /// The config that was read, the defaults where there is no file, and the
    /// error of a malformed one.
    pub fn load_strict(found: Result<Option<Config>, String>, defaults: Config) -> (r: Result<
        Config,
        String,
    >)
        ensures
            outcome(r) == match found {
                Ok(Some(config)) => Ok(config@),
                Ok(None) => Ok(defaults@),
                Err(e) => Err(e@),
            },
    {
        match found {
            Ok(Some(config)) => Ok(config),
            Ok(None) => Ok(defaults),
            Err(e) => Err(e),
        }
    }

    /// The config to run with, and the error that forced the defaults.
    pub fn load_with_parse_error(found: Result<Option<Config>, String>, defaults: Config) -> (r: (
        Config,
        Option<String>,
    ))
        ensures
            r.0@ == match found {
                Ok(Some(config)) => config@,
                _ => defaults@,
            },
            model::opt_view(r.1) == match found {
                Ok(_) => None,
                Err(e) => Some(e@),
            },
    {
        match found {
            Ok(Some(config)) => (config, None),
            Ok(None) => (defaults, None),
            Err(e) => (defaults, Some(e)),
        }
    }

    /// The message about a file that could not be read.
    pub fn read_failure(path: &str, error: &str) -> (r: String)
        ensures
            r@ == "Failed to read config file "@ + path@ + ": "@ + error@,
    {
        text::join4("Failed to read config file ", path, ": ", error)
    }

    /// The message about a file that could not be parsed.
    pub fn parse_failure(path: &str, error: &str) -> (r: String)
        ensures
            r@ == "Failed to parse config file "@ + path@ + ": "@ + error@,
    {
        text::join4("Failed to parse config file ", path, ": ", error)
    }

    /// Undo an opt-out of discovery that an earlier save froze into the file, by
    /// the section that the file has, and say whether it was undone.
    pub fn restore_sponsors(
        &mut self,
        section: &Option<SponsorsSection>,
        defaults: SponsorsConfig,
        endpoints: &Vec<String>,
    ) -> (repaired: bool)
        ensures
            repaired == (!old(self)@.sponsors.enabled && frozen(
                model::opt_view(*section),
                model::seq_view(endpoints@),
            )),
            final(self)@ == if repaired {
                SettingsView { sponsors: defaults@, ..old(self)@ }
            } else {
                old(self)@
            },
    {
        if self.sponsors.enabled || !is_frozen(section, endpoints) {
            return false;
        }
        self.sponsors = defaults;
        true
    }

    /// [`Self::restore_sponsors`] by the text of the file.
    pub fn repair_frozen_sponsors_optout(
        &mut self,
        raw: &str,
        defaults: SponsorsConfig,
        endpoints: &Vec<String>,
    ) -> (repaired: bool)
        ensures
            repaired == (!old(self)@.sponsors.enabled && frozen(
                section_of(toml_value::toml_value_parsed(raw@)),
                model::seq_view(endpoints@),
            )),
            final(self)@ == if repaired {
                SettingsView { sponsors: defaults@, ..old(self)@ }
            } else {
                old(self)@
            },
    {
        let section = read_sponsors_section(raw);
        self.restore_sponsors(&section, defaults, endpoints)
    }

    /// A config as it was parsed, with a frozen opt-out undone. The section of
    /// an undone one is declared as a removal, or the next save would keep it.
    pub fn accept(
        parsed: Config,
        raw: &str,
        path: &Option<String>,
        pending: &mut Removals,
        defaults: SponsorsConfig,
        endpoints: &Vec<String>,
    ) -> (r: Config)
        ensures
            ({
                let repaired = !parsed@.sponsors.enabled && frozen(
                    section_of(toml_value::toml_value_parsed(raw@)),
                    model::seq_view(endpoints@),
                );
                &&& r@ == if repaired {
                    SettingsView { sponsors: defaults@, ..parsed@ }
                } else {
                    parsed@
                }
                &&& final(pending)@ == if repaired {
                    removals::declared(old(pending)@, model::opt_view(*path), "sponsors"@)
                } else {
                    old(pending)@
                }
            }),
    {
        let mut config = parsed;
        if config.repair_frozen_sponsors_optout(raw, defaults, endpoints) {
            pending.declare(path, "sponsors");
        }
        config
    }

    /// Declare that a dotted path must disappear from the config file on the
    /// next save.
    pub fn declare_removal(pending: &mut Removals, path: &Option<String>, dotted: &str)
        ensures
            final(pending)@ == removals::declared(old(pending)@, model::opt_view(*path), dotted@),
    {
        pending.declare(path, dotted);
    }

    /// What to write when a config is saved: its serialization laid over the
    /// file that is there, without what was declared as a removal. The
    /// declarations are drained first, so that a failed write cannot leak them
    /// onto a later save.
    pub fn save(
        path: &Option<String>,
        pending: &mut Removals,
        existing: &Option<String>,
        serialized: &str,
        aliases: &Vec<(String, Vec<String>)>,
    ) -> (r: Result<SaveDraft, String>)
        ensures
            final(pending)@ == removals::drained(old(pending)@, model::opt_view(*path)),
            match r {
                Ok(draft) => {
                    &&& model::opt_view(*path) == Some(draft.path@)
                    &&& draft.serialized@ == serialized@
                    &&& merge_of(
                        model::opt_view(draft.merged),
                        model::opt_view(*existing),
                        serialized@,
                        removals::pending_for(old(pending)@, model::opt_view(*path)),
                        toml_merge::alias_view(aliases@),
                    )
                },
                Err(e) => path is None && e@ == "No config path"@,
            },
    {
        let declared = pending.take(path);
        let file = match path {
            Some(file) => file,
            None => {
                return Err(text::owned("No config path"));
            },
        };
        let merged = match existing {
            Some(existing) => toml_merge::merge_into_existing(
                existing.as_str(),
                serialized,
                &declared,
                aliases,
            ),
            None => None,
        };
        proof {
            let paths = model::seq_view(declared@);
            assert forall|k: int| 0 <= k < paths.len() implies #[trigger] paths[k]
                == declared@[k]@ by {}
        }
        Ok(SaveDraft { path: file.clone(), merged, serialized: text::owned(serialized) })
    }

    /// Mark the kept copy of the config as out of date.
    pub fn invalidate_cache(cache: &mut ConfigCache)
        ensures
            *final(cache) == (ConfigCache { stale: true }),
    {
        cache.stale = true;
    }

    /// Update the Copilot premium mode. Clearing it is a deletion by omission, so it is
    /// declared.
    pub fn set_copilot_premium(
        loaded: Result<Config, String>,
        pending: &mut Removals,
        path: &Option<String>,
        mode: Option<&str>,
    ) -> (r: Result<Config, String>)
        ensures
            outcome(r) == changed(
                outcome(loaded),
                |c: SettingsView|
                    SettingsView {
                        provider: ProviderView { copilot_premium: str_view(mode), ..c.provider },
                        ..c
                    },
            ),
            final(pending)@ == cleared(
                outcome(loaded),
                old(pending)@,
                model::opt_view(*path),
                mode is None,
                "provider.copilot_premium"@,
            ),
    {
        let mut cfg = match loaded {
            Ok(cfg) => cfg,
            Err(e) => {
                return Err(e);
            },
        };
        cfg.provider.copilot_premium = owned_text(mode);
        if mode.is_none() {
            pending.declare(path, "provider.copilot_premium");
        }
        Ok(cfg)
    }

    /// Update the OpenAI reasoning effort. Clearing it is a deletion by omission, so it is
    /// declared.
    pub fn set_openai_reasoning_effort(
        loaded: Result<Config, String>,
        pending: &mut Removals,
        path: &Option<String>,
        value: Option<&str>,
    ) -> (r: Result<Config, String>)
        ensures
            outcome(r) == changed(
                outcome(loaded),
                |c: SettingsView|
                    SettingsView {
                        provider: ProviderView { openai_reasoning_effort: str_view(value), ..c.provider },
                        ..c
                    },
            ),
            final(pending)@ == cleared(
                outcome(loaded),
                old(pending)@,
                model::opt_view(*path),
                value is None,
                "provider.openai_reasoning_effort"@,
            ),
    {
        let mut cfg = match loaded {
            Ok(cfg) => cfg,
            Err(e) => {
                return Err(e);
            },
        };
        cfg.provider.openai_reasoning_effort = owned_text(value);
        if value.is_none() {
            pending.declare(path, "provider.openai_reasoning_effort");
        }
        Ok(cfg)
    }

    /// Update the Anthropic reasoning effort. Clearing it is a deletion by omission, so it is
    /// declared.
    pub fn set_anthropic_reasoning_effort(
        loaded: Result<Config, String>,
        pending: &mut Removals,
        path: &Option<String>,
        value: Option<&str>,
    ) -> (r: Result<Config, String>)
        ensures
            outcome(r) == changed(
                outcome(loaded),
                |c: SettingsView|
                    SettingsView {
                        provider: ProviderView { anthropic_reasoning_effort: str_view(value), ..c.provider },
                        ..c
                    },
            ),
            final(pending)@ == cleared(
                outcome(loaded),
                old(pending)@,
                model::opt_view(*path),
                value is None,
                "provider.anthropic_reasoning_effort"@,
            ),
    {
        let mut cfg = match loaded {
            Ok(cfg) => cfg,
            Err(e) => {
                return Err(e);
            },
        };
        cfg.provider.anthropic_reasoning_effort = owned_text(value);
        if value.is_none() {
            pending.declare(path, "provider.anthropic_reasoning_effort");
        }
        Ok(cfg)
    }

    /// Update the OpenAI transport. Clearing it is a deletion by omission, so it is
    /// declared.
    pub fn set_openai_transport(
        loaded: Result<Config, String>,
        pending: &mut Removals,
        path: &Option<String>,
        value: Option<&str>,
    ) -> (r: Result<Config, String>)
        ensures
            outcome(r) == changed(
                outcome(loaded),
                |c: SettingsView|
                    SettingsView {
                        provider: ProviderView { openai_transport: str_view(value), ..c.provider },
                        ..c
                    },
            ),
            final(pending)@ == cleared(
                outcome(loaded),
                old(pending)@,
                model::opt_view(*path),
                value is None,
                "provider.openai_transport"@,
            ),
    {
        let mut cfg = match loaded {
            Ok(cfg) => cfg,
            Err(e) => {
                return Err(e);
            },
        };
        cfg.provider.openai_transport = owned_text(value);
        if value.is_none() {
            pending.declare(path, "provider.openai_transport");
        }
        Ok(cfg)
    }

    /// Update the OpenAI service tier. Clearing it is a deletion by omission, so it is
    /// declared.
    pub fn set_openai_service_tier(
        loaded: Result<Config, String>,
        pending: &mut Removals,
        path: &Option<String>,
        value: Option<&str>,
    ) -> (r: Result<Config, String>)
        ensures
            outcome(r) == changed(
                outcome(loaded),
                |c: SettingsView|
                    SettingsView {
                        provider: ProviderView { openai_service_tier: str_view(value), ..c.provider },
                        ..c
                    },
            ),
            final(pending)@ == cleared(
                outcome(loaded),
                old(pending)@,
                model::opt_view(*path),
                value is None,
                "provider.openai_service_tier"@,
            ),
    {
        let mut cfg = match loaded {
            Ok(cfg) => cfg,
            Err(e) => {
                return Err(e);
            },
        };
        cfg.provider.openai_service_tier = owned_text(value);
        if value.is_none() {
            pending.declare(path, "provider.openai_service_tier");
        }
        Ok(cfg)
    }

    /// Update whether the display is centered.
    pub fn set_display_centered(loaded: Result<Config, String>, centered: bool) -> (r: Result<Config, String>)
        ensures
            outcome(r) == changed(
                outcome(loaded),
                |c: SettingsView|
                    SettingsView { display: DisplayView { centered: centered, ..c.display }, ..c },
            ),
    {
        let mut cfg = match loaded {
            Ok(cfg) => cfg,
            Err(e) => {
                return Err(e);
            },
        };
        cfg.display.centered = centered;
        Ok(cfg)
    }

    /// Update whether notifications are compact.
    pub fn set_compact_notifications(loaded: Result<Config, String>, compact: bool) -> (r: Result<Config, String>)
        ensures
            outcome(r) == changed(
                outcome(loaded),
                |c: SettingsView|
                    SettingsView { display: DisplayView { compact_notifications: compact, ..c.display }, ..c },
            ),
    {
        let mut cfg = match loaded {
            Ok(cfg) => cfg,
            Err(e) => {
                return Err(e);
            },
        };
        cfg.display.compact_notifications = compact;
        Ok(cfg)
    }

    /// Update whether todos are pinned.
    pub fn set_pin_todos(loaded: Result<Config, String>, pin: bool) -> (r: Result<Config, String>)
        ensures
            outcome(r) == changed(
                outcome(loaded),
                |c: SettingsView|
                    SettingsView { display: DisplayView { pin_todos: pin, ..c.display }, ..c },
            ),
    {
        let mut cfg = match loaded {
            Ok(cfg) => cfg,
            Err(e) => {
                return Err(e);
            },
        };
        cfg.display.pin_todos = pin;
        Ok(cfg)
    }

    /// Update whether agentgrep output is shown.
    pub fn set_show_agentgrep_output(loaded: Result<Config, String>, show: bool) -> (r: Result<Config, String>)
        ensures
            outcome(r) == changed(
                outcome(loaded),
                |c: SettingsView|
                    SettingsView { display: DisplayView { show_agentgrep_output: show, ..c.display }, ..c },
            ),
    {
        let mut cfg = match loaded {
            Ok(cfg) => cfg,
            Err(e) => {
                return Err(e);
            },
        };
        cfg.display.show_agentgrep_output = show;
        Ok(cfg)
    }

    /// Update whether the details of tool calls are shown.
    pub fn set_tool_call_details(loaded: Result<Config, String>, show: bool) -> (r: Result<Config, String>)
        ensures
            outcome(r) == changed(
                outcome(loaded),
                |c: SettingsView|
                    SettingsView { display: DisplayView { tool_call_details: show, ..c.display }, ..c },
            ),
    {
        let mut cfg = match loaded {
            Ok(cfg) => cfg,
            Err(e) => {
                return Err(e);
            },
        };
        cfg.display.tool_call_details = show;
        Ok(cfg)
    }

    /// Update the label of the reasoning display mode.
    pub fn set_reasoning_display(loaded: Result<Config, String>, mode: &str) -> (r: Result<
        Config,
        String,
    >)
        ensures
            outcome(r) == changed(
                outcome(loaded),
                |c: SettingsView|
                    SettingsView {
                        display: DisplayView { reasoning_display: mode@, ..c.display },
                        ..c
                    },
            ),
    {
        let mut cfg = match loaded {
            Ok(cfg) => cfg,
            Err(e) => {
                return Err(e);
            },
        };
        cfg.display.reasoning_display = text::owned(mode);
        Ok(cfg)
    }

    /// Update the default model and provider. Clearing either is declared.
    pub fn set_default_model(
        loaded: Result<Config, String>,
        pending: &mut Removals,
        path: &Option<String>,
        model: Option<&str>,
        provider: Option<&str>,
    ) -> (r: Result<Config, String>)
        ensures
            outcome(r) == changed(
                outcome(loaded),
                |c: SettingsView|
                    SettingsView {
                        provider: ProviderView {
                            default_model: str_view(model),
                            default_provider: str_view(provider),
                            ..c.provider
                        },
                        ..c
                    },
            ),
            final(pending)@ == defaults_cleared(
                outcome(loaded),
                old(pending)@,
                crate::model::opt_view(*path),
                str_view(model),
                str_view(provider),
            ),
    {
        let mut cfg = match loaded {
            Ok(cfg) => cfg,
            Err(e) => {
                return Err(e);
            },
        };
        cfg.provider.default_model = owned_text(model);
        cfg.provider.default_provider = owned_text(provider);
        if model.is_none() {
            pending.declare(path, "provider.default_model");
        }
        if provider.is_none() {
            pending.declare(path, "provider.default_provider");
        }
        Ok(cfg)
    }

    /// Update just the default provider.
    pub fn set_default_provider(
        loaded: Result<Config, String>,
        pending: &mut Removals,
        path: &Option<String>,
        provider: Option<&str>,
    ) -> (r: Result<Config, String>)
        ensures
            outcome(r) == changed(
                outcome(loaded),
                |c: SettingsView|
                    SettingsView {
                        provider: ProviderView {
                            default_provider: str_view(provider),
                            ..c.provider
                        },
                        ..c
                    },
            ),
            final(pending)@ == defaults_cleared(
                outcome(loaded),
                old(pending)@,
                model::opt_view(*path),
                match outcome(loaded) {
                    Ok(c) => c.provider.default_model,
                    Err(_) => None,
                },
                str_view(provider),
            ),
    {
        let kept = match &loaded {
            Ok(cfg) => model::copy_text(&cfg.provider.default_model),
            Err(_) => None,
        };
        let model: Option<&str> = match &kept {
            Some(name) => Some(name.as_str()),
            None => None,
        };
        Config::set_default_model(loaded, pending, path, model, provider)
    }

    /// Update just the default model.
    pub fn set_default_model_only(
        loaded: Result<Config, String>,
        pending: &mut Removals,
        path: &Option<String>,
        model: Option<&str>,
    ) -> (r: Result<Config, String>)
        ensures
            outcome(r) == changed(
                outcome(loaded),
                |c: SettingsView|
                    SettingsView {
                        provider: ProviderView { default_model: str_view(model), ..c.provider },
                        ..c
                    },
            ),
            final(pending)@ == defaults_cleared(
                outcome(loaded),
                old(pending)@,
                crate::model::opt_view(*path),
                str_view(model),
                match outcome(loaded) {
                    Ok(c) => c.provider.default_provider,
                    Err(_) => None,
                },
            ),
    {
        let kept = match &loaded {
            Ok(cfg) => crate::model::copy_text(&cfg.provider.default_provider),
            Err(_) => None,
        };
        let provider: Option<&str> = match &kept {
            Some(name) => Some(name.as_str()),
            None => None,
        };
        Config::set_default_model(loaded, pending, path, model, provider)
    }

    /// Change a config that was read by a function of the caller's. What could
    /// not be read is reported and not changed.
    pub fn update<R, F: FnOnce(Config) -> (Config, R)>(
        loaded: Result<Config, String>,
        mutate: F,
    ) -> (r: Result<(Config, R), String>)
        requires
            loaded is Ok ==> mutate.requires((loaded->Ok_0,)),
        ensures
            match loaded {
                Ok(config) => r is Ok && mutate.ensures((config,), r->Ok_0),
                Err(e) => r is Err && r->Err_0 == e,
            },
    {
        match loaded {
            Ok(config) => Ok(mutate(config)),
            Err(e) => Err(e),
        }
    }

    /// [`Self::update`] with the dotted paths that the change empties.
    pub fn update_removing<R, F: FnOnce(Config) -> (Config, R)>(
        loaded: Result<Config, String>,
        pending: &mut Removals,
        path: &Option<String>,
        dotted: &Vec<String>,
        mutate: F,
    ) -> (r: Result<(Config, R), String>)
        requires
            loaded is Ok ==> mutate.requires((loaded->Ok_0,)),
        ensures
            match loaded {
                Ok(config) => r is Ok && mutate.ensures((config,), r->Ok_0),
                Err(e) => r is Err && r->Err_0 == e,
            },
            final(pending)@ == if loaded is Ok {
                all_declared(
                    old(pending)@,
                    model::opt_view(*path),
                    model::seq_view(dotted@),
                    dotted@.len() as int,
                )
            } else {
                old(pending)@
            },
    {
        let config = match loaded {
            Ok(config) => config,
            Err(e) => {
                return Err(e);
            },
        };
        let ghost before = pending@;
        let ghost all = model::seq_view(dotted@);
        let mut i: usize = 0;
        while i < dotted.len()
            invariant
                i <= dotted@.len(),
                all == model::seq_view(dotted@),
                pending@ == all_declared(before, model::opt_view(*path), all, i as int),
            decreases dotted.len() - i,
        {
            assert(all[i as int] == dotted@[i as int]@);
            pending.declare(path, dotted[i].as_str());
            i += 1;
        }
        Ok(mutate(config))
    }

    /// Set the mapping of launch hotkeys, once and for all: later edits are the
    /// user's.
    pub fn set_launch_hotkeys(
        loaded: Result<Config, String>,
        entries: Vec<LaunchHotkeyEntry>,
        enabled: bool,
    ) -> (r: Result<Config, String>)
        ensures
            outcome(r) == changed(
                outcome(loaded),
                |c: SettingsView| with_hotkeys(c, model::seq_view(entries@), enabled),
            ),
    {
        let mut cfg = match loaded {
            Ok(cfg) => cfg,
            Err(e) => {
                return Err(e);
            },
        };
        cfg.launch_hotkeys = LaunchHotkeysConfig {
            entries,
            enabled: Some(enabled),
            imported: true,
        };
        Ok(cfg)
    }

    /// How many session files there are among the names of a directory.
    pub fn count_sessions(names: &Vec<String>) -> (r: usize)
        ensures
            r == session_files(model::seq_view(names@)),
    {
        let ghost all = model::seq_view(names@);
        let mut count: usize = 0;
        let mut i: usize = 0;
        assert(all.take(0) =~= Seq::empty());
        while i < names.len()
            invariant
                i <= names@.len(),
                count <= i,
                all == model::seq_view(names@),
                count == session_files(all.take(i as int)),
            decreases names.len() - i,
        {
            assert(all.take(i + 1).drop_last() =~= all.take(i as int));
            assert(all.take(i + 1).last() == names@[i as int]@);
            if text::ends_with(names[i].as_str(), ".json") {
                count += 1;
            }
            i += 1;
        }
        assert(all.take(i as int) =~= all);
        count
    }

    /// Whether to look at the history of sessions for launch hotkeys at all.
    pub fn may_bake_launch_hotkeys(&self, session_count: usize) -> (r: bool)
        ensures
            r == may_bake(self@, session_count),
    {
        !self.launch_hotkeys.imported && session_count >= MIN_SESSIONS_TO_BAKE
    }

    /// Decide what to do about launch hotkeys with the layout that was inferred
    /// from the history.
    pub fn bake_launch_hotkeys_once(plan: Vec<PlannedHotkey>, session_count: usize) -> (r:
        HotkeyBake)
        ensures
            r@ == bake_of(model::seq_view(plan@), session_count),
    {
        let ghost all = model::seq_view(plan@);
        let mut found: usize = 0;
        let mut n: usize = 0;
        while n < plan.len()
            invariant
                n <= plan@.len(),
                all == model::seq_view(plan@),
                found <= n,
                found == repositories(all.take(n as int)),
            decreases plan.len() - n,
        {
            assert(all.take(n + 1).drop_last() =~= all.take(n as int));
            assert(all.take(n + 1).last() == plan@[n as int]@);
            if !text::same(plan[n].label.as_str(), "home") {
                found += 1;
            }
            n += 1;
        }
        assert(all.take(n as int) =~= all);
        if found == 0 && session_count >= GIVE_UP_SESSION_COUNT {
            return HotkeyBake::GiveUp;
        }
        if found < 2 {
            return HotkeyBake::KeepDefaults;
        }
        let mut entries: Vec<LaunchHotkeyEntry> = Vec::new();
        let mut i: usize = 0;
        while i < plan.len()
            invariant
                i <= plan@.len(),
                all == model::seq_view(plan@),
                entries@.len() == i,
                forall|k: int| 0 <= k < i ==> (#[trigger] entries@[k])@ == baked(all[k]),
            decreases plan.len() - i,
        {
            let planned = &plan[i];
            assert(all[i as int] == planned@);
            let dir = if text::same(planned.label.as_str(), "home") {
                text::owned("$HOME")
            } else {
                planned.dir.clone()
            };
            entries.push(
                LaunchHotkeyEntry {
                    chord: planned.chord.clone(),
                    dir,
                    label: planned.label.clone(),
                    self_dev: false,
                },
            );
            i += 1;
        }
        assert(model::seq_view(entries@) =~= all.map_values(|p: PlannedView| baked(p)));
        HotkeyBake::Write(entries)
    }
}

/// The removals after the default model and provider were set, each of which
/// may have been cleared.
pub open spec fn defaults_cleared(
    loaded: Result<SettingsView, Seq<char>>,
    pending: Seq<(Seq<char>, Seq<Seq<char>>)>,
    path: Option<Seq<char>>,
    model: Option<Seq<char>>,
    provider: Option<Seq<char>>,
) -> Seq<(Seq<char>, Seq<Seq<char>>)> {
    cleared(
        loaded,
        cleared(loaded, pending, path, model is None, "provider.default_model"@),
        path,
        provider is None,
        "provider.default_provider"@,
    )
}

/// The removals after the first `n` of some paths were declared.
pub open spec fn all_declared(
    pending: Seq<(Seq<char>, Seq<Seq<char>>)>,
    path: Option<Seq<char>>,
    dotted: Seq<Seq<char>>,
    n: int,
) -> Seq<(Seq<char>, Seq<Seq<char>>)>
    decreases n,
{
    if n <= 0 {
        pending
    } else {
        removals::declared(all_declared(pending, path, dotted, n - 1), path, dotted[n - 1])
    }
}

/// How many of some names are session files.
pub open spec fn session_files(names: Seq<Seq<char>>) -> nat
    decreases names.len(),
{
    if names.len() == 0 {
        0
    } else {
        session_files(names.drop_last()) + if text::ends(names.last(), ".json"@) {
            1nat
        } else {
            0nat
        }
    }
}

/// Whether launch hotkeys are inferred from a history of sessions: not once they
/// were, and not from too little.
pub open spec fn may_bake(settings: SettingsView, session_count: usize) -> bool {
    !settings.launch_hotkeys.imported && session_count >= MIN_SESSIONS_TO_BAKE
}

/// The settings with a mapping of launch hotkeys.
pub open spec fn with_hotkeys(
    settings: SettingsView,
    entries: Seq<HotkeyView>,
    enabled: bool,
) -> SettingsView {
    SettingsView {
        launch_hotkeys: HotkeysView { entries, enabled: Some(enabled), imported: true },
        ..settings
    }
}

/// A mapping that is written is not inferred again, whatever the history is.
pub proof fn hotkeys_are_baked_once(
    settings: SettingsView,
    entries: Seq<HotkeyView>,
    enabled: bool,
    session_count: usize,
)
    ensures
        !may_bake(with_hotkeys(settings, entries, enabled), session_count),
{
}

/// A malformed file blocks every change: nothing comes back to be saved, and no
/// removal is declared.
pub proof fn malformed_file_blocks_changes(
    error: Seq<char>,
    change: spec_fn(SettingsView) -> SettingsView,
    pending: Seq<(Seq<char>, Seq<Seq<char>>)>,
    path: Option<Seq<char>>,
    clear: bool,
    dotted: Seq<char>,
)
    ensures
        changed(Err(error), change) == Err::<SettingsView, Seq<char>>(error),
        cleared(Err(error), pending, path, clear, dotted) == pending,
{
}

/// A setting that is cleared waits to be removed from the file by the next save.
pub proof fn cleared_setting_is_declared(
    settings: SettingsView,
    pending: Seq<(Seq<char>, Seq<Seq<char>>)>,
    file: Seq<char>,
    dotted: Seq<char>,
)
    ensures
        removals::pending_for(
            cleared(Ok(settings), pending, Some(file), true, dotted),
            Some(file),
        ).contains(dotted),
{
    removals::declared_removal_is_recorded(pending, file, dotted);
}

/// A hand-written opt-out is respected: only one that is exactly the two keys
/// with a default endpoint counts as frozen.
pub proof fn hand_written_optout_is_respected(section: SectionView, endpoints: Seq<Seq<char>>)
    requires
        section.keys != 2 || section.endpoint is None || !endpoints.contains(
            section.endpoint->Some_0,
        ),
    ensures
        !frozen(Some(section), endpoints),
{
}

/// Every path that an update lists waits to be removed by its save.
pub proof fn listed_path_is_declared(
    pending: Seq<(Seq<char>, Seq<Seq<char>>)>,
    file: Seq<char>,
    dotted: Seq<Seq<char>>,
    n: int,
    k: int,
)
    requires
        0 <= k < n <= dotted.len(),
    ensures
        removals::pending_for(all_declared(pending, Some(file), dotted, n), Some(file)).contains(
            dotted[k],
        ),
    decreases n,
{
    let before = all_declared(pending, Some(file), dotted, n - 1);
    if k == n - 1 {
        removals::declared_removal_is_recorded(before, file, dotted[k]);
    } else {
        listed_path_is_declared(pending, file, dotted, n - 1, k);
        removals::declared_removal_stays(before, file, dotted[k], dotted[n - 1]);
    }
}

/// Every path that an update lists is gone from the file after its save, whatever
/// else was declared and whatever kind of table it is in.
pub proof fn listed_path_is_gone_after_the_save(
    pending: Seq<(Seq<char>, Seq<Seq<char>>)>,
    file: Seq<char>,
    dotted: Seq<Seq<char>>,
    k: int,
    existing: TomlTable,
    serialized: TomlTable,
    aliases: Seq<(Seq<char>, Seq<Seq<char>>)>,
)
    requires
        0 <= k < dotted.len(),
        toml_tree::keys_once(existing.entries),
        toml_tree::keys_once(serialized.entries),
    ensures
        ({
            let declared = all_declared(pending, Some(file), dotted, dotted.len() as int);
            let paths = removals::pending_for(declared, Some(file));
            toml_merge::path_at(
                toml_merge::saved(existing, serialized, paths, aliases),
                dotted[k],
            ) is None
        }),
{
    listed_path_is_declared(pending, file, dotted, dotted.len() as int, k);
    let declared = all_declared(pending, Some(file), dotted, dotted.len() as int);
    let paths = removals::pending_for(declared, Some(file));
    let i = choose|i: int| 0 <= i < paths.len() && paths[i] == dotted[k];
    toml_merge::declared_path_is_gone_after_the_save(existing, serialized, paths, aliases, i);
}

/// The section of the sponsors is the table under that name, with the number of
/// its keys and the two settings that have their types.
pub proof fn sponsors_section_is_read_key_by_key(
    document: Toml,
    entries: Seq<(Seq<char>, Toml)>,
    i: int,
)
    requires
        toml_value::toml_field_of(document, "sponsors"@) == Some(Toml::Table(entries)),
        0 <= i < entries.len(),
        forall|k: int| 0 <= k < i ==> (#[trigger] entries[k]).0 != entries[i].0,
    ensures
        section_of(Some(document)) is Some,
        ({
            let section = section_of(Some(document))->Some_0;
            &&& section.keys == entries.len()
            &&& entries[i].0 == "enabled"@ && entries[i].1 is Boolean ==> section.enabled == Some(
                entries[i].1->Boolean_0,
            )
            &&& entries[i].0 == "enabled"@ && !(entries[i].1 is Boolean) ==> section.enabled is None
            &&& entries[i].0 == "endpoint"@ && entries[i].1 is Text ==> section.endpoint == Some(
                entries[i].1->Text_0,
            )
            &&& entries[i].0 == "endpoint"@ && !(entries[i].1 is Text) ==> section.endpoint is None
            &&& (forall|k: int| 0 <= k < entries.len() ==> (#[trigger] entries[k]).0 != "enabled"@)
                ==> section.enabled is None
            &&& (forall|k: int| 0 <= k < entries.len() ==> (#[trigger] entries[k]).0 != "endpoint"@)
                ==> section.endpoint is None
        }),
{
    model::lemma_index_from(entries, "enabled"@, 0);
    model::lemma_index_from(entries, "endpoint"@, 0);
}

/// A document that cannot be read, and one without a table of sponsors, has no
/// such section.
pub proof fn no_table_is_no_sponsors_section(document: Toml)
    ensures
        section_of(None) is None,
        toml_value::toml_field_of(document, "sponsors"@) is None ==> section_of(Some(document)) is None,
        toml_value::toml_field_of(document, "sponsors"@) is Some && !(toml_value::toml_field_of(
            document,
            "sponsors"@,
        )->Some_0 is Table) ==> section_of(Some(document)) is None,
{
}

/// An opt-out is taken for one that was never chosen exactly where the section
/// says nothing but that and an endpoint that was a default: any one of them.
pub proof fn frozen_optout_names_a_default_endpoint(
    section: SectionView,
    endpoints: Seq<Seq<char>>,
    i: int,
)
    ensures
        0 <= i < endpoints.len() && section.keys == 2 && section.enabled == Some(false)
            && section.endpoint == Some(endpoints[i]) ==> frozen(Some(section), endpoints),
        section.keys != 2 ==> !frozen(Some(section), endpoints),
        section.enabled != Some(false) ==> !frozen(Some(section), endpoints),
        section.endpoint is None ==> !frozen(Some(section), endpoints),
        (forall|k: int|
            0 <= k < endpoints.len() ==> section.endpoint != Some(#[trigger] endpoints[k]))
            ==> !frozen(Some(section), endpoints),
        !frozen(None, endpoints),
{
}

/// A planned hotkey keeps its chord and its label. The home directory is
/// written as the variable, any other as it is, and none starts development.
pub proof fn baked_hotkey_keeps_its_plan(planned: PlannedView)
    ensures
        baked(planned).chord == planned.chord,
        baked(planned).label == planned.label,
        planned.label == "home"@ ==> baked(planned).dir == "$HOME"@,
        planned.label != "home"@ ==> baked(planned).dir == planned.dir,
        !baked(planned).self_dev,
{
}

/// The repositories of a plan are its entries other than the home directory.
pub proof fn repositories_are_all_but_home(plan: Seq<PlannedView>)
    ensures
        repositories(plan) == plan.filter(|p: PlannedView| p.label != "home"@).len(),
    decreases plan.len(),
{
    reveal(Seq::filter);
    if plan.len() > 0 {
        repositories_are_all_but_home(plan.drop_last());
    }
}

/// A plan with two repositories or more is written, entry by entry in its
/// order; one with fewer is not, and is given up for good when there is none
/// after fifty sessions.
pub proof fn mapping_is_written_from_two_repositories_on(
    plan: Seq<PlannedView>,
    session_count: usize,
    i: int,
)
    ensures
        ({
            let count = plan.filter(|p: PlannedView| p.label != "home"@).len();
            let bake = bake_of(plan, session_count);
            &&& count >= 2 ==> bake is Write && bake->Write_0.len() == plan.len()
            &&& count >= 2 && 0 <= i < plan.len() ==> bake->Write_0[i].chord == plan[i].chord
                && bake->Write_0[i].label == plan[i].label && bake->Write_0[i].dir == if plan[i].label
                == "home"@ {
                "$HOME"@
            } else {
                plan[i].dir
            }
            &&& count == 1 ==> bake is KeepDefaults
            &&& count == 0 && session_count >= 50 ==> bake is GiveUp
            &&& count == 0 && session_count < 50 ==> bake is KeepDefaults
        }),
{
    repositories_are_all_but_home(plan);
}

/// A mapping is looked for from the third session on, until one was imported.
pub proof fn mapping_is_looked_for_from_the_third_session(
    settings: SettingsView,
    session_count: usize,
)
    ensures
        settings.launch_hotkeys.imported ==> !may_bake(settings, session_count),
        !settings.launch_hotkeys.imported ==> (may_bake(settings, session_count) <==> session_count
            >= 3),
{
}

/// The sessions are the files whose names end in `.json`.
pub proof fn sessions_are_the_json_files(names: Seq<Seq<char>>)
    ensures
        session_files(names) == names.filter(|name: Seq<char>| text::ends(name, ".json"@)).len(),
    decreases names.len(),
{
    reveal(Seq::filter);
    if names.len() > 0 {
        sessions_are_the_json_files(names.drop_last());
    }
}

/// Hotkeys that are set are those that are given, switched as they are told,
/// and the user's from then on; nothing else in the settings changes.
pub proof fn hotkeys_are_set_alone(
    settings: SettingsView,
    entries: Seq<HotkeyView>,
    enabled: bool,
)
    ensures
        with_hotkeys(settings, entries, enabled).launch_hotkeys.entries == entries,
        with_hotkeys(settings, entries, enabled).launch_hotkeys.enabled == Some(enabled),
        with_hotkeys(settings, entries, enabled).launch_hotkeys.imported,
        with_hotkeys(settings, entries, enabled).provider == settings.provider,
        with_hotkeys(settings, entries, enabled).display == settings.display,
        with_hotkeys(settings, entries, enabled).auth == settings.auth,
        with_hotkeys(settings, entries, enabled).sponsors == settings.sponsors,
{
}

/// Clearing a default asks for its own setting to be removed from the file: the
/// model's for the model, the provider's for the provider. A default that is set
/// asks for nothing.
pub proof fn cleared_default_is_removed_by_its_own_name(
    settings: SettingsView,
    pending: Seq<(Seq<char>, Seq<Seq<char>>)>,
    file: Seq<char>,
    model: Option<Seq<char>>,
    provider: Option<Seq<char>>,
)
    ensures
        ({
            let before = removals::pending_for(pending, Some(file));
            let after = removals::pending_for(
                defaults_cleared(Ok(settings), pending, Some(file), model, provider),
                Some(file),
            );
            &&& model is None ==> after.contains("provider.default_model"@)
            &&& provider is None ==> after.contains("provider.default_provider"@)
            &&& model is Some && !before.contains("provider.default_model"@) ==> !after.contains(
                "provider.default_model"@,
            )
            &&& provider is Some && !before.contains("provider.default_provider"@)
                ==> !after.contains("provider.default_provider"@)
            &&& forall|dotted: Seq<char>| #[trigger]
                before.contains(dotted) ==> after.contains(dotted)
        }),
{
    reveal_strlit("provider.default_model");
    reveal_strlit("provider.default_provider");
    let first = "provider.default_model"@;
    let second = "provider.default_provider"@;
    assert(first.len() != second.len());
    let middle = if model is None {
        removals::declared(pending, Some(file), first)
    } else {
        pending
    };
    let before = removals::pending_for(pending, Some(file));
    let between = removals::pending_for(middle, Some(file));
    let after = removals::pending_for(
        defaults_cleared(Ok(settings), pending, Some(file), model, provider),
        Some(file),
    );
    removals::removals_are_listed_once_and_in_order(pending, file, first);
    removals::removals_are_listed_once_and_in_order(middle, file, second);
    assert(between == before || between == before.push(first));
    assert(after == between || after == between.push(second));
    lemma_push_contains(before, first);
    lemma_push_contains(between, second);
}

proof fn lemma_push_contains(list: Seq<Seq<char>>, last: Seq<char>)
    ensures
        forall|value: Seq<char>| #[trigger]
            list.push(last).contains(value) <==> list.contains(value) || value == last,
{
    assert forall|value: Seq<char>| #[trigger]
        list.push(last).contains(value) <==> list.contains(value) || value == last by {
        if list.contains(value) {
            let k = choose|k: int| 0 <= k < list.len() && list[k] == value;
            assert(list.push(last)[k] == value);
        }
        if value == last {
            assert(list.push(last)[list.len() as int] == value);
        }
        if list.push(last).contains(value) {
            let k = choose|k: int|
                0 <= k < list.push(last).len() && list.push(last)[k] == value;
            if k < list.len() {
                assert(list[k] == value);
            }
        }
    }
}

/// Settings that were loaded are changed, and removals are asked for, only
/// where the load succeeded; an error is handed on as it is.
pub proof fn change_needs_loaded_settings(
    settings: SettingsView,
    error: Seq<char>,
    change: spec_fn(SettingsView) -> SettingsView,
    pending: Seq<(Seq<char>, Seq<Seq<char>>)>,
    file: Seq<char>,
    dotted: Seq<char>,
)
    ensures
        changed(Ok(settings), change) == Ok::<_, Seq<char>>(change(settings)),
        changed(Err(error), change) == Err::<SettingsView, Seq<char>>(error),
        cleared(Err(error), pending, Some(file), true, dotted) == pending,
        cleared(Ok(settings), pending, Some(file), false, dotted) == pending,
        removals::pending_for(
            cleared(Ok(settings), pending, Some(file), true, dotted),
            Some(file),
        ).contains(dotted),
{
    let list = removals::pending_for(pending, Some(file));
    removals::removals_are_listed_once_and_in_order(pending, file, dotted);
    lemma_push_contains(list, dotted);
}

} // verus!
