//! The config file: loading and saving, setters, declared removals, trusted
//! sources, launch hotkeys and one-time migrations.

use jcode_pricing::config_file::{
    is_frozen, read_sponsors_section, AuthConfig, Config, ConfigCache, DisplayConfig, HotkeyBake,
    LaunchHotkeyEntry, LaunchHotkeysConfig, PlannedHotkey, ProviderConfig, SponsorsConfig,
    GIVE_UP_SESSION_COUNT, MIN_SESSIONS_TO_BAKE,
};
use jcode_pricing::migrations::{rewrite, LineRule, Migration};
use jcode_pricing::removals::Removals;
use jcode_pricing::toml_merge::merge_into_existing;

fn sponsors() -> SponsorsConfig {
    SponsorsConfig { enabled: true, endpoint: "https://now.example".to_string() }
}

fn config() -> Config {
    Config {
        provider: ProviderConfig {
            copilot_premium: None,
            default_model: None,
            default_provider: None,
            openai_reasoning_effort: Some("low".to_string()),
            anthropic_reasoning_effort: None,
            openai_transport: None,
            openai_service_tier: None,
        },
        display: DisplayConfig {
            centered: false,
            reasoning_display: "collapsed".to_string(),
            compact_notifications: false,
            pin_todos: false,
            show_agentgrep_output: false,
            tool_call_details: false,
        },
        launch_hotkeys: LaunchHotkeysConfig { entries: Vec::new(), enabled: None, imported: false },
        auth: AuthConfig {
            trusted_external_sources: Vec::new(),
            trusted_external_source_paths: Vec::new(),
        },
        sponsors: sponsors(),
    }
}

fn file(path: &str) -> Option<String> {
    Some(path.to_string())
}

fn endpoints() -> Vec<String> {
    vec!["https://old.example".to_string(), "https://now.example".to_string()]
}

fn no_aliases() -> Vec<(String, Vec<String>)> {
    Vec::new()
}

fn merged(existing: &str, serialized: &str, removals: &[&str]) -> String {
    let removals = removals.iter().map(|path| path.to_string()).collect();
    merge_into_existing(existing, serialized, &removals, &no_aliases()).expect("both are TOML")
}

// ---- saving ----

const MISTRAL_CONFIG: &str = r#"
[provider]
openai_reasoning_effort = "low"

[providers.mistral]
type = "openai-compatible"
base_url = "https://api.mistral.ai/v1"
auth = "Bearer"
api_key_env = "MISTRAL_API_KEY"
disable_reasoning_heuristics = true

[[providers.mistral.models]]
id = "mistral-medium-latest"
reasoning = true
reasoning_effort = "max"
"#;

#[test]
fn effort_update_preserves_profile_with_capitalized_bearer_auth() {
    let mut pending = Removals::new();
    let path = file("/home/me/config.toml");
    let changed =
        Config::set_openai_reasoning_effort(Ok(config()), &mut pending, &path, Some("high"))
            .expect("changed");
    assert_eq!(changed.provider.openai_reasoning_effort.as_deref(), Some("high"));

    let serialized = "[provider]\nopenai_reasoning_effort = \"high\"\n";
    let draft = Config::save(
        &path,
        &mut pending,
        &Some(MISTRAL_CONFIG.to_string()),
        serialized,
        &no_aliases(),
    )
    .expect("a draft");
    let saved = draft.content(true);
    assert!(saved.contains("[providers.mistral]"));
    assert!(saved.contains("mistral-medium-latest"));
    let parsed: toml::Value = toml::from_str(&saved).expect("still TOML");
    assert_eq!(
        parsed["provider"]["openai_reasoning_effort"].as_str(),
        Some("high")
    );
    assert_eq!(parsed["providers"]["mistral"]["models"].as_array().map(Vec::len), Some(1));
}

#[test]
fn effort_update_refuses_to_overwrite_malformed_config() {
    let mut pending = Removals::new();
    let message = Config::parse_failure("/home/me/config.toml", "unknown variant");
    let loaded = Config::load_strict(Err(message), config());
    let error = Config::set_openai_reasoning_effort(
        loaded,
        &mut pending,
        &file("/home/me/config.toml"),
        Some("high"),
    )
    .expect_err("a malformed config must block mutation");
    assert!(error.contains("Failed to parse config file"));
    assert!(pending.entries.is_empty());
}

#[test]
fn a_malformed_file_loads_as_the_defaults_but_says_so() {
    assert_eq!(
        Config::load(Err("bad".to_string()), config()).display.reasoning_display,
        "collapsed"
    );
    let (loaded, error) = Config::load_with_parse_error(Err("bad".to_string()), config());
    assert_eq!(loaded.provider.openai_reasoning_effort.as_deref(), Some("low"));
    assert_eq!(error.as_deref(), Some("bad"));
    let (_, error) = Config::load_with_parse_error(Ok(None), config());
    assert!(error.is_none(), "a file that is not there is no error");
    assert!(Config::load_strict(Ok(None), config()).is_ok());
    assert_eq!(Config::read_failure("/a", "x"), "Failed to read config file /a: x");
    assert_eq!(Config::path(Some("/home/me/.jcode")).as_deref(), Some("/home/me/.jcode/config.toml"));
    assert_eq!(Config::path(None), None);
}

/// A declared removal is recorded and consumed by the save that follows.
#[test]
fn declared_removals_are_recorded_and_consumed() {
    let mut pending = Removals::new();
    let path = file("/home/me/config.toml");
    Config::declare_removal(&mut pending, &path, "display.colors");
    assert_eq!(
        pending.pending(&path),
        vec!["display.colors".to_string()],
        "the removal must be recorded for this config path"
    );
    let existing = Some("[display]\ncentered = false\n".to_string());
    Config::save(&path, &mut pending, &existing, "[display]\ncentered = false\n", &no_aliases())
        .expect("save");
    assert!(
        pending.pending(&path).is_empty(),
        "save must consume the declared removal"
    );
}

/// A removal of one file is never applied to another.
#[test]
fn declared_removals_are_scoped_to_the_config_path() {
    let mut pending = Removals::new();
    let first = file("/first/config.toml");
    let second = file("/second/config.toml");
    Config::declare_removal(&mut pending, &first, "display.colors");

    let existing = Some("[display.colors]\nerror = \"#1050f0\"\n".to_string());
    let saved =
        Config::save(&second, &mut pending, &existing, "[display]\ncentered = false\n", &no_aliases())
            .expect("save in the other home")
            .content(true);
    assert!(saved.contains("#1050f0"), "the other home's file must keep its colors");
    assert_eq!(
        pending.pending(&first),
        vec!["display.colors".to_string()],
        "the declaration must survive until its own home is saved"
    );
    assert_eq!(pending.take(&first), vec!["display.colors".to_string()]);
    assert!(pending.take(&first).is_empty());
}

#[test]
fn a_merge_that_cannot_be_read_is_not_written() {
    let mut pending = Removals::new();
    let path = file("/c.toml");
    let existing = Some("# mine\na = 1\n".to_string());
    let draft = |pending: &mut Removals| {
        Config::save(&path, pending, &existing, "a = 2\n", &no_aliases()).expect("a draft")
    };
    let kept = draft(&mut pending);
    assert_eq!(kept.path, "/c.toml");
    assert_eq!(kept.content(true), "# mine\na = 2\n");
    assert_eq!(draft(&mut pending).content(false), "a = 2\n");
    let fresh =
        Config::save(&path, &mut pending, &None, "a = 2\n", &no_aliases()).expect("a draft");
    assert!(fresh.merged.is_none());
    assert_eq!(fresh.content(true), "a = 2\n");
    assert!(
        Config::save(&None, &mut pending, &None, "a = 2\n", &no_aliases()).is_err(),
        "without a home there is nowhere to save"
    );
}

#[test]
fn a_save_keeps_comments_and_keys_of_others() {
    let existing = "# top\n[display] # section\n# why\ncentered = true # here\nother = 1\n";
    let saved = merged(existing, "[display]\ncentered = false\n", &[]);
    assert_eq!(
        saved,
        "# top\n[display] # section\n# why\ncentered = false # here\nother = 1\n"
    );
}

#[test]
fn a_new_key_is_added_and_a_removed_path_is_gone() {
    let existing = "[display]\ncentered = true\n\n[display.colors]\nerror = \"#1050f0\"\n";
    let saved = merged(existing, "[display]\ncentered = true\npin_todos = true\n", &["display.colors"]);
    assert!(saved.contains("pin_todos = true"));
    assert!(saved.contains("centered = true"));
    assert!(!saved.contains("colors"), "{saved}");
    let again = merged(&saved, "[display]\ncentered = true\npin_todos = true\n", &["no.such.path"]);
    assert_eq!(again, saved);
}

#[test]
fn another_spelling_of_a_key_is_replaced() {
    let aliases = vec![("pin_todos".to_string(), vec!["pin_todo".to_string()])];
    let saved = merge_into_existing(
        "[display]\npin_todo = true\n",
        "[display]\npin_todos = false\n",
        &Vec::new(),
        &aliases,
    )
    .expect("both are TOML");
    assert!(saved.contains("pin_todos = false"), "{saved}");
    assert!(!saved.contains("pin_todo ="), "{saved}");
    assert!(merge_into_existing("not toml [", "a = 1\n", &Vec::new(), &aliases).is_none());
}

// ---- setters ----

#[test]
fn clearing_a_setting_declares_its_removal() {
    let path = file("/c.toml");
    let mut pending = Removals::new();
    let cleared = Config::set_openai_reasoning_effort(Ok(config()), &mut pending, &path, None)
        .expect("cleared");
    assert_eq!(cleared.provider.openai_reasoning_effort, None);
    assert_eq!(pending.pending(&path), vec!["provider.openai_reasoning_effort".to_string()]);

    let mut pending = Removals::new();
    let set = Config::set_default_model(
        Ok(config()),
        &mut pending,
        &path,
        Some("gpt-5.5"),
        Some("openai"),
    )
    .expect("set");
    assert_eq!(set.provider.default_model.as_deref(), Some("gpt-5.5"));
    assert_eq!(set.provider.default_provider.as_deref(), Some("openai"));
    assert!(pending.pending(&path).is_empty());
    let cleared = Config::set_default_model(Ok(set), &mut pending, &path, None, None)
        .expect("cleared");
    assert_eq!(cleared.provider.default_model, None);
    assert_eq!(pending.pending(&path).len(), 2);
}

#[test]
fn each_setter_changes_its_own_setting() {
    let path = file("/c.toml");
    let mut pending = Removals::new();
    let changed = Config::set_display_centered(Ok(config()), true).expect("changed");
    let changed = Config::set_compact_notifications(Ok(changed), true).expect("changed");
    let changed = Config::set_pin_todos(Ok(changed), true).expect("changed");
    let changed = Config::set_show_agentgrep_output(Ok(changed), true).expect("changed");
    let changed = Config::set_tool_call_details(Ok(changed), true).expect("changed");
    let changed = Config::set_reasoning_display(Ok(changed), "full").expect("changed");
    let changed =
        Config::set_copilot_premium(Ok(changed), &mut pending, &path, Some("zero")).expect("changed");
    let changed = Config::set_anthropic_reasoning_effort(Ok(changed), &mut pending, &path, Some("max"))
        .expect("changed");
    let changed =
        Config::set_openai_transport(Ok(changed), &mut pending, &path, Some("http")).expect("changed");
    let changed = Config::set_openai_service_tier(Ok(changed), &mut pending, &path, Some("flex"))
        .expect("changed");
    let changed =
        Config::set_default_provider(Ok(changed), &mut pending, &path, Some("p")).expect("changed");
    let changed =
        Config::set_default_model_only(Ok(changed), &mut pending, &path, Some("m")).expect("changed");
    let display = &changed.display;
    assert!(display.centered && display.compact_notifications && display.pin_todos);
    assert!(display.show_agentgrep_output && display.tool_call_details);
    assert_eq!(display.reasoning_display, "full");
    let provider = &changed.provider;
    assert_eq!(provider.copilot_premium.as_deref(), Some("zero"));
    assert_eq!(provider.anthropic_reasoning_effort.as_deref(), Some("max"));
    assert_eq!(provider.openai_transport.as_deref(), Some("http"));
    assert_eq!(provider.openai_service_tier.as_deref(), Some("flex"));
    assert_eq!(provider.default_provider.as_deref(), Some("p"));
    assert_eq!(provider.default_model.as_deref(), Some("m"));
    assert_eq!(provider.openai_reasoning_effort.as_deref(), Some("low"), "the rest stays");
    assert_eq!(
        pending.pending(&path),
        vec!["provider.default_model".to_string()],
        "there was no default model yet when the provider was set"
    );
}

#[test]
fn an_update_runs_on_a_config_that_loaded() {
    let (changed, answer) = Config::update(Ok(config()), |mut c: Config| {
        c.display.centered = true;
        (c, 7)
    })
    .expect("updated");
    assert!(changed.display.centered);
    assert_eq!(answer, 7);
    let failed = Config::update(Err("bad".to_string()), |c: Config| (c, 7));
    assert_eq!(failed.expect_err("not loaded"), "bad");

    let path = file("/c.toml");
    let mut pending = Removals::new();
    let dotted = vec!["a.b".to_string(), "c".to_string()];
    Config::update_removing(Ok(config()), &mut pending, &path, &dotted, |c: Config| (c, ()))
        .expect("updated");
    assert_eq!(pending.pending(&path), dotted);

    let mut cache = ConfigCache { stale: false };
    Config::invalidate_cache(&mut cache);
    assert!(cache.stale);
}

// ---- the opt-out that a save froze into the file ----

#[test]
fn a_frozen_optout_is_repaired_and_a_hand_written_one_kept() {
    let frozen = "[sponsors]\nenabled = false\nendpoint = \"https://old.example\"\n";
    assert!(is_frozen(&read_sponsors_section(frozen), &endpoints()));
    for kept in [
        "[sponsors]\nenabled = false\n",
        "[sponsors]\nenabled = false\nendpoint = \"https://mine.example\"\n",
        "[sponsors]\nenabled = false\nendpoint = \"https://old.example\"\nextra = 1\n",
        "[sponsors]\nenabled = true\nendpoint = \"https://old.example\"\n",
        "[display]\ncentered = true\n",
        "not toml [",
    ] {
        assert!(!is_frozen(&read_sponsors_section(kept), &endpoints()), "{kept}");
    }

    let off = || {
        let mut parsed = config();
        parsed.sponsors =
            SponsorsConfig { enabled: false, endpoint: "https://old.example".to_string() };
        parsed
    };
    let path = file("/c.toml");
    let mut pending = Removals::new();
    let accepted =
        Config::accept(off(), frozen, &path, &mut pending, sponsors(), &endpoints());
    assert!(accepted.sponsors.enabled);
    assert_eq!(accepted.sponsors.endpoint, "https://now.example");
    assert_eq!(
        pending.pending(&path),
        vec!["sponsors".to_string()],
        "the frozen section leaves the file on the next save"
    );

    let mut pending = Removals::new();
    let accepted = Config::accept(
        off(),
        "[sponsors]\nenabled = false\n",
        &path,
        &mut pending,
        sponsors(),
        &endpoints(),
    );
    assert!(!accepted.sponsors.enabled);
    assert!(pending.pending(&path).is_empty());
}

// ---- trusted sources ----

#[test]
fn a_source_is_trusted_once_it_was_allowed() {
    let allowed = Config::allow_external_auth_source(Ok(config()), " Codex ")
        .expect("allowed")
        .expect("to save");
    assert!(allowed.external_auth_source_allowed("codex"));
    assert!(allowed.external_auth_source_allowed("CODEX"));
    assert!(!allowed.external_auth_source_allowed("other"));
    assert!(!allowed.external_auth_source_allowed("  "));
    assert!(
        Config::allow_external_auth_source(Ok(allowed), "codex").expect("allowed").is_none(),
        "what is allowed already is not saved again"
    );
    assert!(
        Config::allow_external_auth_source(Ok(config()), " ").is_err(),
        "a source has a name"
    );
}

#[test]
fn a_file_is_trusted_with_its_source() {
    let canonical: Result<String, String> = Ok("/Home/Me/Auth.json".to_string());
    assert_eq!(
        Config::trusted_external_auth_path_entry(" Codex", &canonical).expect("an entry"),
        "codex|/home/me/auth.json"
    );
    assert_eq!(
        Config::trusted_external_auth_path_entry(" ", &canonical).expect_err("no source"),
        "External auth source id cannot be empty"
    );
    let missing: Result<String, String> = Err("no such file".to_string());
    assert_eq!(
        Config::trusted_external_auth_path_entry("codex", &missing).expect_err("no file"),
        "no such file"
    );

    let allowed = Config::allow_external_auth_source_for_path(Ok(config()), "codex", &canonical)
        .expect("allowed")
        .expect("to save");
    assert!(allowed.external_auth_source_allowed_for_path("codex", &canonical));
    assert!(!allowed.external_auth_source_allowed_for_path("other", &canonical));
    assert!(!allowed.external_auth_source_allowed_for_path("codex", &missing));
    assert!(Config::external_auth_source_allowed_for_path_cached(
        &config(),
        &allowed,
        "codex",
        &canonical
    ));
    assert!(!Config::external_auth_source_allowed_for_path_cached(
        &config(),
        &config(),
        "codex",
        &canonical
    ));

    let path = file("/c.toml");
    let mut pending = Removals::new();
    let revoked = Config::revoke_external_auth_source_for_path(
        Ok(allowed),
        &mut pending,
        &path,
        "codex",
        &canonical,
    )
    .expect("revoked")
    .expect("to save");
    assert!(!revoked.external_auth_source_allowed_for_path("codex", &canonical));
    assert_eq!(
        pending.pending(&path),
        vec!["auth.trusted_external_source_paths".to_string()],
        "the last file leaves an empty list, which has to be declared"
    );
}

#[test]
fn revoking_a_source_leaves_the_others() {
    let mut trusting = config();
    trusting.auth.trusted_external_sources = vec!["a".to_string(), "b".to_string()];
    let path = file("/c.toml");
    let mut pending = Removals::new();
    let revoked =
        Config::revoke_external_auth_source(Ok(trusting), &mut pending, &path, "A")
            .expect("revoked")
            .expect("to save");
    assert_eq!(revoked.auth.trusted_external_sources, vec!["b".to_string()]);
    assert!(pending.pending(&path).is_empty(), "the list is still written");
    let again = Config::revoke_external_auth_source(Ok(revoked), &mut pending, &path, "a");
    assert!(again.expect("revoked").is_none());
    let blank = Config::revoke_external_auth_source(Ok(config()), &mut pending, &path, " ");
    assert!(blank.expect("nothing to do").is_none());
}

#[test]
fn revoking_the_only_source_takes_it_out_of_the_file() {
    let mut trusting = config();
    trusting.auth.trusted_external_sources = vec!["a".to_string()];
    let path = file("/c.toml");
    let mut pending = Removals::new();
    let revoked =
        Config::revoke_external_auth_source(Ok(trusting), &mut pending, &path, "a")
            .expect("revoked")
            .expect("to save");
    assert!(!revoked.external_auth_source_allowed("a"));
    assert_eq!(pending.pending(&path), vec!["auth.trusted_external_sources".to_string()]);
    // An empty list is left out of the serialization.
    for existing in [
        "[auth]\ntrusted_external_sources = [\"a\"]\nkeep = 1\n",
        "auth = { trusted_external_sources = [\"a\"], keep = 1 }\n",
    ] {
        let mut waiting = Removals::new();
        waiting.declare(&path, "auth.trusted_external_sources");
        let draft = Config::save(
            &path,
            &mut waiting,
            &Some(existing.to_string()),
            "x = 1\n",
            &no_aliases(),
        )
        .expect("saved");
        let text = draft.merged.expect("merged");
        assert!(!text.contains("trusted_external_sources"), "{text}");
        assert!(text.contains("keep = 1"), "{text}");
        assert!(waiting.pending(&path).is_empty());
    }
}

#[test]
fn a_path_inside_an_inline_table_is_removed() {
    let text = merged("a = { b = 1, c = 2 }\n", "x = 1\n", &["a.b"]);
    let saved: toml::Value = text.parse().expect("TOML");
    assert!(saved["a"].get("b").is_none(), "{text}");
    assert_eq!(saved["a"]["c"].as_integer(), Some(2));

    let deep = merged(
        "[t]\na = { b = { c = 1, d = 2 }, e = 3 }\nlist = [{ b = 1 }]\n",
        "x = 1\n",
        &["t.a.b.c", "t.a.e", "t.list.b", "t.a.none"],
    );
    let saved: toml::Value = deep.parse().expect("TOML");
    assert!(saved["t"]["a"]["b"].get("c").is_none(), "{deep}");
    assert_eq!(saved["t"]["a"]["b"]["d"].as_integer(), Some(2));
    assert!(saved["t"]["a"].get("e").is_none(), "{deep}");
    assert_eq!(saved["t"]["list"][0]["b"].as_integer(), Some(1), "a list is not on a path");
}

#[test]
fn an_inline_section_keeps_the_keys_that_the_config_does_not_write() {
    let existing = "# mine\nprovider = { default_model = \"old\", future = 1 } # here\n\
                    other = 2\n\n[last]\nx = 3\n";
    let text = merged(existing, "[provider]\ndefault_model = \"new\"\n", &[]);
    let saved: toml::Value = text.parse().expect("TOML");
    assert_eq!(saved["provider"]["default_model"].as_str(), Some("new"), "{text}");
    assert_eq!(saved["provider"]["future"].as_integer(), Some(1), "{text}");
    assert_eq!(saved["other"].as_integer(), Some(2), "{text}");
    assert_eq!(saved["last"]["x"].as_integer(), Some(3), "{text}");
    assert!(text.contains("# mine\n[provider] # here\n"), "{text}");

    let nested = merged(
        "[t]\na = { b = { c = 1, d = 2 } }\n",
        "[t.a.b]\nc = 5\n",
        &["t.a.b.none"],
    );
    let saved: toml::Value = nested.parse().expect("TOML");
    assert_eq!(saved["t"]["a"]["b"]["c"].as_integer(), Some(5), "{nested}");
    assert_eq!(saved["t"]["a"]["b"]["d"].as_integer(), Some(2), "{nested}");
}

#[test]
fn comments_at_the_end_of_the_file_are_kept() {
    let existing = "a = 1\n[t]\nb = 2\n\n# the last word\n# is mine\n";
    let text = merged(existing, "a = 5\n[t]\nc = 3\n[new]\nx = 1\n", &["t.b"]);
    assert!(text.ends_with("\n# the last word\n# is mine\n"), "{text}");
    let saved: toml::Value = text.parse().expect("TOML");
    assert_eq!(saved["a"].as_integer(), Some(5));
    assert_eq!(saved["new"]["x"].as_integer(), Some(1));
    assert!(saved["t"].get("b").is_none());

    let text = merged("# nothing but\n# comments", "a = 1\n", &[]);
    assert!(text.ends_with("# nothing but\n# comments"), "{text}");
    assert!(text.contains("a = 1\n"), "{text}");

    let path = file("/c.toml");
    let mut pending = Removals::new();
    let listed = vec!["a".to_string()];
    let updated = Config::update_removing(Ok(config()), &mut pending, &path, &listed, |c| (c, ()));
    assert!(updated.is_ok());
    let existing = Some("a = 1\r\nb = 2\r\n# end\r\n".to_string());
    let draft = Config::save(&path, &mut pending, &existing, "x = 1\n", &no_aliases());
    let text = draft.expect("saved").merged.expect("merged");
    assert!(text.ends_with("# end\n"), "{text:?}");
    assert!(!text.contains("a = 1"), "{text:?}");
}

#[test]
fn every_listed_path_is_gone_after_an_update() {
    let path = file("/c.toml");
    let mut pending = Removals::new();
    let listed = vec!["a.b".to_string(), "a.c".to_string(), "d".to_string()];
    let updated = Config::update_removing(Ok(config()), &mut pending, &path, &listed, |c| (c, 7));
    assert_eq!(updated.expect("updated").1, 7);
    let existing = Some("a = { b = 1, c = 2, k = 3 }\nd = 4\ne = 5\n".to_string());
    let draft = Config::save(&path, &mut pending, &existing, "x = 1\n", &no_aliases());
    let text = draft.expect("saved").merged.expect("merged");
    let saved: toml::Value = text.parse().expect("TOML");
    assert!(saved["a"].get("b").is_none() && saved["a"].get("c").is_none(), "{text}");
    assert!(saved.get("d").is_none(), "{text}");
    assert_eq!(saved["a"]["k"].as_integer(), Some(3));
    assert_eq!(saved["e"].as_integer(), Some(5));
}

// ---- launch hotkeys ----

fn planned(chord: &str, dir: &str, label: &str) -> PlannedHotkey {
    PlannedHotkey { chord: chord.to_string(), dir: dir.to_string(), label: label.to_string() }
}

#[test]
fn hotkeys_are_inferred_once_from_enough_history() {
    let names = ["a.json", "b.json", "notes.txt"].map(String::from).to_vec();
    assert_eq!(Config::count_sessions(&names), 2);
    assert!(!config().may_bake_launch_hotkeys(MIN_SESSIONS_TO_BAKE - 1));
    assert!(config().may_bake_launch_hotkeys(MIN_SESSIONS_TO_BAKE));

    let home = || vec![planned("alt+1", "/home/me", "home")];
    assert!(matches!(
        Config::bake_launch_hotkeys_once(home(), GIVE_UP_SESSION_COUNT - 1),
        HotkeyBake::KeepDefaults
    ));
    assert!(matches!(
        Config::bake_launch_hotkeys_once(home(), GIVE_UP_SESSION_COUNT),
        HotkeyBake::GiveUp
    ));
    let one_repo = || {
        let mut plan = home();
        plan.push(planned("alt+2", "/src/repo", "repo"));
        plan
    };
    assert!(
        matches!(
            Config::bake_launch_hotkeys_once(one_repo(), MIN_SESSIONS_TO_BAKE),
            HotkeyBake::KeepDefaults
        ),
        "one repository is no layout"
    );
    assert!(
        matches!(
            Config::bake_launch_hotkeys_once(one_repo(), GIVE_UP_SESSION_COUNT),
            HotkeyBake::KeepDefaults
        ),
        "with a repository the history is looked at again"
    );
    let mut plan = one_repo();
    plan.push(planned("alt+3", "/src/other", "other"));
    let entries = match Config::bake_launch_hotkeys_once(plan, MIN_SESSIONS_TO_BAKE) {
        HotkeyBake::Write(entries) => entries,
        other => panic!("a mapping, got {other:?}"),
    };
    assert_eq!(entries[0].dir, "$HOME", "home keeps following the home directory");
    assert_eq!(entries[1].dir, "/src/repo");

    let saved = Config::set_launch_hotkeys(Ok(config()), entries, true).expect("saved");
    assert_eq!(saved.launch_hotkeys.enabled, Some(true));
    assert_eq!(saved.launch_hotkeys.entries.len(), 3);
    assert!(!saved.may_bake_launch_hotkeys(1_000), "never twice");
    let entry: &LaunchHotkeyEntry = &saved.launch_hotkeys.entries[1];
    assert!(!entry.self_dev);
}

// ---- one-time migrations ----

#[test]
fn a_migration_rewrites_one_line_and_nothing_else() {
    let content = "# mine\n[agents]\n  swarm_spawn_mode = \"visible\"\nother = 1\n".to_string();
    match Config::migrate_legacy_swarm_spawn_mode_once(false, &Some(content.clone())) {
        Migration::Rewrite(text) => assert_eq!(
            text,
            "# mine\n[agents]\n  swarm_spawn_mode = \"inline\"\nother = 1\n"
        ),
        other => panic!("a rewrite, got {other:?}"),
    }
    assert!(matches!(
        Config::migrate_legacy_swarm_spawn_mode_once(true, &Some(content)),
        Migration::Done
    ));
    assert!(matches!(
        Config::migrate_legacy_swarm_spawn_mode_once(false, &None),
        Migration::MarkOnly
    ));
    let chosen = "swarm_spawn_mode = \"headless\"\n".to_string();
    assert!(matches!(
        Config::migrate_legacy_swarm_spawn_mode_once(false, &Some(chosen)),
        Migration::MarkOnly
    ));
}

#[test]
fn the_idle_animation_is_turned_off_once() {
    let content = "[display]\r\nidle_animation = true # fun\r\nx = 1".to_string();
    match Config::migrate_idle_animation_off_once(false, &Some(content)) {
        Migration::Rewrite(text) => {
            assert_eq!(text, "[display]\r\nidle_animation = false\r\nx = 1");
            assert_eq!(rewrite(LineRule::IdleAnimation, &text), None, "the new line stays");
        }
        other => panic!("a rewrite, got {other:?}"),
    }
    assert_eq!(rewrite(LineRule::IdleAnimation, "idle_animation = false\n"), None);
    assert_eq!(rewrite(LineRule::IdleAnimation, "# idle_animation = true\n"), None);
    assert_eq!(
        rewrite(LineRule::SpawnMode, "swarm_spawn_mode='headed'").as_deref(),
        Some("swarm_spawn_mode = \"inline\"")
    );
}
