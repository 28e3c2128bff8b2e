//! Provider identities: which keys name the same provider, and which models a
//! sheet's globs cover.

use crate::model;
use crate::rule_types::PricingConfig;
use crate::text;
use vstd::prelude::*;

verus! {

/// What the runtime calls Anthropic: the name that its keys for that vendor
/// begin with, and the name that it shows.
#[derive(Debug, Clone)]
pub struct VendorNames {
    pub key: String,
    pub title: String,
}

#[verifier::ext_equal]
pub struct NamesView {
    pub key: Seq<char>,
    pub title: Seq<char>,
}

impl View for VendorNames {
    type V = NamesView;

    open spec fn view(&self) -> NamesView {
        NamesView { key: self.key@, title: self.title@ }
    }
}

impl NamesView {
    /// The source key of the vendor's API key.
    pub open spec fn api_key(self) -> Seq<char> {
        self.key + ":api-key"@
    }

    /// What the source keys of the vendor's logins begin with.
    pub open spec fn login_prefix(self) -> Seq<char> {
        self.key + ":oauth:"@
    }
}

impl VendorNames {
    /// The source key of the vendor's API key.
    pub fn api_key(&self) -> (r: String)
        ensures
            r@ == self@.api_key(),
    {
        text::join2(self.key.as_str(), ":api-key")
    }

    /// What the source keys of the vendor's logins begin with.
    pub fn login_prefix(&self) -> (r: String)
        ensures
            r@ == self@.login_prefix(),
    {
        text::join2(self.key.as_str(), ":oauth:")
    }
}

/// The prefix of the keys of OpenAI-compatible profiles.
pub open spec fn compatible_prefix() -> Seq<char> {
    "openai-compatible:"@
}

/// A key without surrounding white space and without the profile prefix.
pub open spec fn plain_key(key: Seq<char>) -> Seq<char> {
    match text::stripped(text::trimmed(key), compatible_prefix()) {
        Some(rest) => rest,
        None => text::trimmed(key),
    }
}

/// The models.dev provider id that a plain key stands for.
pub open spec fn dev_id_of_plain(key: Seq<char>, names: NamesView) -> Option<Seq<char>> {
    if key == "anthropic"@ || key == names.key || key == names.api_key() || key == "anthropic-api"@ {
        Some("anthropic"@)
    } else if key == "openai"@ || key == "openai:api-key"@ || key == "openai-api"@ {
        Some("openai"@)
    } else if key == "openrouter"@ {
        Some("openrouter"@)
    } else if key == "opencode"@ {
        Some("opencode"@)
    } else if key == "opencode-go"@ {
        Some("opencode-go"@)
    } else if key == "deepseek"@ {
        Some("deepseek"@)
    } else if key == "moonshotai"@ {
        Some("moonshotai"@)
    } else if key == "kimi"@ {
        Some("kimi-for-coding"@)
    } else if key == "zai"@ {
        Some("zai"@)
    } else if key == "cerebras"@ {
        Some("cerebras"@)
    } else if key == "groq"@ {
        Some("groq"@)
    } else if key == "mistral"@ {
        Some("mistral"@)
    } else if key == "xai"@ {
        Some("xai"@)
    } else if key == "minimax"@ {
        Some("minimax"@)
    } else if key == "togetherai"@ {
        Some("togetherai"@)
    } else if key == "fireworks"@ {
        Some("fireworks-ai"@)
    } else if key == "deepinfra"@ {
        Some("deepinfra"@)
    } else if key == "perplexity"@ {
        Some("perplexity"@)
    } else if key == "nebius"@ {
        Some("nebius"@)
    } else if key == "scaleway"@ {
        Some("scaleway"@)
    } else if key == "stackit"@ {
        Some("stackit"@)
    } else if key == "huggingface"@ {
        Some("huggingface"@)
    } else if key == "baseten"@ {
        Some("baseten"@)
    } else if key == "chutes"@ {
        Some("chutes"@)
    } else if key == "nvidia-nim"@ {
        Some("nvidia"@)
    } else if key == "302ai"@ {
        Some("302ai"@)
    } else if key == "cortecs"@ {
        Some("cortecs"@)
    } else if key == "alibaba-coding-plan"@ {
        Some("alibaba"@)
    } else if key == "bedrock"@ {
        Some("amazon-bedrock"@)
    } else if key == "azure-openai"@ || key == "azure"@ {
        Some("azure"@)
    } else if key == "gemini"@ || key == "gemini-api"@ {
        Some("google"@)
    } else {
        None
    }
}

/// The models.dev provider id of a provider key.
pub open spec fn dev_id(key: Seq<char>, names: NamesView) -> Option<Seq<char>> {
    dev_id_of_plain(plain_key(key), names)
}

fn plain_dev_id(key: &str, names: &VendorNames) -> (r: Option<&'static str>)
    ensures
        match r {
            Some(id) => dev_id_of_plain(key@, names@) == Some(id@),
            None => dev_id_of_plain(key@, names@) is None,
        },
{
    let api_key = names.api_key();
    if text::same(key, "anthropic") || text::same(key, names.key.as_str()) || text::same(
        key,
        api_key.as_str(),
    ) || text::same(key, "anthropic-api") {
        Some("anthropic")
    } else if text::same(key, "openai") || text::same(key, "openai:api-key") || text::same(key, "openai-api") {
        Some("openai")
    } else if text::same(key, "openrouter") {
        Some("openrouter")
    } else if text::same(key, "opencode") {
        Some("opencode")
    } else if text::same(key, "opencode-go") {
        Some("opencode-go")
    } else if text::same(key, "deepseek") {
        Some("deepseek")
    } else if text::same(key, "moonshotai") {
        Some("moonshotai")
    } else if text::same(key, "kimi") {
        Some("kimi-for-coding")
    } else if text::same(key, "zai") {
        Some("zai")
    } else if text::same(key, "cerebras") {
        Some("cerebras")
    } else if text::same(key, "groq") {
        Some("groq")
    } else if text::same(key, "mistral") {
        Some("mistral")
    } else if text::same(key, "xai") {
        Some("xai")
    } else if text::same(key, "minimax") {
        Some("minimax")
    } else if text::same(key, "togetherai") {
        Some("togetherai")
    } else if text::same(key, "fireworks") {
        Some("fireworks-ai")
    } else if text::same(key, "deepinfra") {
        Some("deepinfra")
    } else if text::same(key, "perplexity") {
        Some("perplexity")
    } else if text::same(key, "nebius") {
        Some("nebius")
    } else if text::same(key, "scaleway") {
        Some("scaleway")
    } else if text::same(key, "stackit") {
        Some("stackit")
    } else if text::same(key, "huggingface") {
        Some("huggingface")
    } else if text::same(key, "baseten") {
        Some("baseten")
    } else if text::same(key, "chutes") {
        Some("chutes")
    } else if text::same(key, "nvidia-nim") {
        Some("nvidia")
    } else if text::same(key, "302ai") {
        Some("302ai")
    } else if text::same(key, "cortecs") {
        Some("cortecs")
    } else if text::same(key, "alibaba-coding-plan") {
        Some("alibaba")
    } else if text::same(key, "bedrock") {
        Some("amazon-bedrock")
    } else if text::same(key, "azure-openai") || text::same(key, "azure") {
        Some("azure")
    } else if text::same(key, "gemini") || text::same(key, "gemini-api") {
        Some("google")
    } else {
        None
    }
}

/// Translate a provider key (runtime key, activity source key, or compatible
/// profile id) to the models.dev provider id.
pub fn models_dev_provider_id(jcode_provider: &str, names: &VendorNames) -> (r: Option<&'static str>)
    ensures
        match r {
            Some(id) => dev_id(jcode_provider@, names@) == Some(id@),
            None => dev_id(jcode_provider@, names@) is None,
        },
{
    let key = text::trim(jcode_provider);
    match text::strip_prefix(key, "openai-compatible:") {
        Some(rest) => plain_dev_id(rest, names),
        None => plain_dev_id(key, names),
    }
}

/// `model` without the marker of a long-context alias.
pub open spec fn without_context_suffix(model: Seq<char>) -> Seq<char> {
    if text::ends(model, "[1m]"@) {
        model.take(model.len() - 4)
    } else {
        model
    }
}

/// A model id without what it carries for local use: the marker of a
/// long-context alias, and a pin behind its last `@`.
pub open spec fn normal_id(model: Seq<char>) -> Seq<char> {
    let bare = text::trimmed(without_context_suffix(model));
    if text::last_index(bare, '@') < 0 {
        bare
    } else {
        text::trimmed(bare.take(text::last_index(bare, '@')))
    }
}

/// What follows the last `/` of a model id, if it has one.
pub open spec fn unprefixed(model: Seq<char>) -> Option<Seq<char>> {
    if text::last_index(model, '/') < 0 {
        None
    } else {
        Some(model.skip(text::last_index(model, '/') + 1))
    }
}

/// Strip what a model id may carry locally before it is looked up.
pub fn normalize_model_id(model: &str) -> (r: String)
    ensures
        r@ == normal_id(model@),
{
    let n: usize = model.unicode_len();
    proof {
        reveal_strlit("[1m]");
    }
    let bare: &str = if text::ends_with(model, "[1m]") {
        assert(model@.subrange(0, n - 4) =~= model@.take(n - 4));
        model.substring_char(0, n - 4)
    } else {
        model
    };
    let bare = text::trim(bare);
    let chars = text::chars_of(bare);
    match text::find_last(&chars, '@') {
        Some(i) => {
            assert(bare@.subrange(0, i as int) =~= bare@.take(i as int));
            text::owned(text::trim(bare.substring_char(0, i)))
        },
        None => text::owned(bare),
    }
}

/// What follows the last `/` of a model id, if it has one.
pub fn bare_model(model: &str) -> (r: Option<String>)
    ensures
        model::opt_view(r) == unprefixed(model@),
{
    let chars = text::chars_of(model);
    let n: usize = chars.len();
    match text::find_last(&chars, '/') {
        Some(i) => {
            assert(chars@.subrange(i + 1, n as int) =~= model@.skip(i + 1));
            Some(text::text_of(&chars, i + 1, n))
        },
        None => None,
    }
}

/// Whether a `[pricing.providers]` key and a source key name the same provider:
/// they are equal, one is the compatible profile of the other, or both have the
/// same models.dev id.
pub open spec fn same_provider(
    config_key: Seq<char>,
    source_key: Seq<char>,
    names: NamesView,
) -> bool {
    let key = text::trimmed(config_key);
    ||| key == source_key
    ||| text::stripped(key, compatible_prefix()) == Some(source_key)
    ||| text::stripped(source_key, compatible_prefix()) == Some(key)
    ||| (dev_id(key, names) is Some && dev_id(key, names) == dev_id(source_key, names))
}

/// Whether a `[pricing.providers]` key refers to the same provider as
/// `source_key`.
pub fn provider_key_matches(config_key: &str, source_key: &str, names: &VendorNames) -> (r: bool)
    ensures
        r == same_provider(config_key@, source_key@, names@),
{
    let key = text::trim(config_key);
    if text::same(key, source_key) {
        return true;
    }
    if let Some(profile) = text::strip_prefix(key, "openai-compatible:") {
        if text::same(profile, source_key) {
            return true;
        }
    }
    if let Some(profile) = text::strip_prefix(source_key, "openai-compatible:") {
        if text::same(profile, key) {
            return true;
        }
    }
    match (models_dev_provider_id(key, names), models_dev_provider_id(source_key, names)) {
        (Some(left), Some(right)) => text::same(left, right),
        _ => false,
    }
}

/// A profile of an OpenAI-compatible provider.
#[derive(Debug, Clone)]
pub struct Profile {
    pub id: String,
    pub display_name: String,
}

pub struct ProfileView {
    pub id: Seq<char>,
    pub display_name: Seq<char>,
}

impl View for Profile {
    type V = ProfileView;

    open spec fn view(&self) -> ProfileView {
        ProfileView { id: self.id@, display_name: self.display_name@ }
    }
}

/// The index of the first profile from `from` on with the id.
pub open spec fn profile_from(profiles: Seq<ProfileView>, id: Seq<char>, from: int) -> Option<int>
    decreases profiles.len() - from,
{
    if from < 0 || from >= profiles.len() {
        None
    } else if profiles[from].id == id {
        Some(from)
    } else {
        profile_from(profiles, id, from + 1)
    }
}

/// The profile with the id.
pub fn profile_by_id<'a>(profiles: &'a Vec<Profile>, id: &str) -> (r: Option<&'a Profile>)
    ensures
        match r {
            Some(p) => {
                let i = profile_from(model::seq_view(profiles@), id@, 0);
                i is Some && model::seq_view(profiles@)[i->Some_0] == p@
            },
            None => profile_from(model::seq_view(profiles@), id@, 0) is None,
        },
{
    let ghost all = model::seq_view(profiles@);
    let mut i: usize = 0;
    while i < profiles.len()
        invariant
            i <= profiles@.len(),
            all == model::seq_view(profiles@),
            profile_from(all, id@, 0) == profile_from(all, id@, i as int),
        decreases profiles.len() - i,
    {
        if text::same(profiles[i].id.as_str(), id) {
            return Some(&profiles[i]);
        }
        i += 1;
    }
    None
}

/// Whether `name` is a profile's id or, whatever the case, its display name.
pub open spec fn names_profile(profiles: Seq<ProfileView>, name: Seq<char>) -> bool {
    exists|i: int|
        0 <= i < profiles.len() && ((#[trigger] profiles[i]).id == name || text::lowered(
            profiles[i].display_name,
        ) == text::lowered(name))
}

pub fn is_profile_name(profiles: &Vec<Profile>, name: &str) -> (r: bool)
    ensures
        r == names_profile(model::seq_view(profiles@), name@),
{
    let ghost all = model::seq_view(profiles@);
    let lower = text::to_lower(name);
    let mut i: usize = 0;
    while i < profiles.len()
        invariant
            i <= profiles@.len(),
            all == model::seq_view(profiles@),
            lower@ == text::lowered(name@),
            forall|k: int|
                0 <= k < i ==> !((#[trigger] all[k]).id == name@ || text::lowered(
                    all[k].display_name,
                ) == text::lowered(name@)),
        decreases profiles.len() - i,
    {
        let display = text::to_lower(profiles[i].display_name.as_str());
        if text::same(profiles[i].id.as_str(), name) || text::same(
            display.as_str(),
            lower.as_str(),
        ) {
            assert(all[i as int].id == name@ || text::lowered(all[i as int].display_name)
                == text::lowered(name@));
            return true;
        }
        i += 1;
    }
    false
}

/// Whether `key` can be an identity that a billing path would report.
pub open spec fn known_key(
    key: Seq<char>,
    profiles: Seq<ProfileView>,
    names: NamesView,
) -> bool {
    let k = text::trimmed(key);
    let lower = text::lowered(k);
    &&& k.len() > 0
    &&& {
        ||| dev_id(k, names) is Some
        ||| names_profile(
            profiles,
            match text::stripped(k, compatible_prefix()) {
                Some(rest) => rest,
                None => k,
            },
        )
        ||| lower == "jcode"@
        ||| lower == "copilot"@
        ||| lower == "cursor"@
        ||| lower == "antigravity"@
    }
}

pub fn provider_key_is_known(key: &str, profiles: &Vec<Profile>, names: &VendorNames) -> (r: bool)
    ensures
        r == known_key(key@, model::seq_view(profiles@), names@),
{
    let key = text::trim(key);
    if key.is_empty() {
        return false;
    }
    if models_dev_provider_id(key, names).is_some() {
        return true;
    }
    let profile: &str = match text::strip_prefix(key, "openai-compatible:") {
        Some(rest) => rest,
        None => key,
    };
    if is_profile_name(profiles, profile) {
        return true;
    }
    let lower = text::to_lower(key);
    let l = lower.as_str();
    text::same(l, "jcode") || text::same(l, "copilot") || text::same(l, "cursor") || text::same(
        l,
        "antigravity",
    )
}

/// The keys of the entries, in order.
pub open spec fn keys_of<V>(entries: Seq<(Seq<char>, V)>) -> Seq<Seq<char>> {
    entries.map_values(|e: (Seq<char>, V)| e.0)
}

/// The keys that can match no provider, in order.
pub open spec fn unknown_keys(
    keys: Seq<Seq<char>>,
    profiles: Seq<ProfileView>,
    names: NamesView,
) -> Seq<Seq<char>> {
    keys.filter(|key: Seq<char>| !known_key(key, profiles, names))
}

/// The `[pricing.providers]` keys that cannot match any provider identity, that
/// is, rules that can never take effect.
pub fn unmatchable_provider_keys(
    config: &PricingConfig,
    profiles: &Vec<Profile>,
    names: &VendorNames,
) -> (r: Vec<String>)
    ensures
        model::seq_view(r@) == unknown_keys(
            keys_of(config@.providers),
            model::seq_view(profiles@),
            names@,
        ),
{
    let ghost keys = keys_of(config@.providers);
    let ghost all = model::seq_view(profiles@);
    let ghost pred = |key: Seq<char>| !known_key(key, all, names@);
    let mut out: Vec<String> = Vec::new();
    let mut i: usize = 0;
    assert(keys.take(0) =~= Seq::empty());
    assert(keys.take(0).filter(pred) =~= Seq::empty()) by {
        reveal(Seq::filter);
    }
    assert(model::seq_view(out@) =~= Seq::empty());
    while i < config.providers.len()
        invariant
            i <= config.providers@.len(),
            keys == keys_of(config@.providers),
            all == model::seq_view(profiles@),
            pred == (|key: Seq<char>| !known_key(key, all, names@)),
            model::seq_view(out@) == keys.take(i as int).filter(pred),
        decreases config.providers.len() - i,
    {
        let key = &config.providers[i].0;
        proof {
            let next = keys.take(i + 1);
            assert(next.drop_last() =~= keys.take(i as int));
            assert(next.last() == key@);
            reveal(Seq::filter);
        }
        if !provider_key_is_known(key.as_str(), profiles, names) {
            let ghost before = model::seq_view(out@);
            out.push(key.clone());
            assert(model::seq_view(out@) =~= before.push(key@));
        }
        i += 1;
    }
    assert(keys.take(i as int) =~= keys);
    out
}

/// Whether `name` has the shape of `pattern`, in which `*` stands for any text
/// and `?` for one character. ASCII letters match whatever their case.
pub open spec fn glob(pattern: Seq<char>, name: Seq<char>) -> bool
    decreases pattern.len(), name.len(),
{
    if pattern.len() == 0 {
        name.len() == 0
    } else if pattern[0] == '*' {
        glob(pattern.skip(1), name) || (name.len() > 0 && glob(pattern, name.skip(1)))
    } else {
        name.len() > 0 && (pattern[0] == '?' || text::lower_ascii(pattern[0])
            == text::lower_ascii(name[0])) && glob(pattern.skip(1), name.skip(1))
    }
}

/// `*` covers every name.
pub proof fn star_matches_everything(name: Seq<char>)
    ensures
        glob(seq!['*'], name),
    decreases name.len(),
{
    if name.len() == 0 {
        assert(seq!['*'].skip(1) =~= Seq::<char>::empty());
        assert(glob(seq!['*'].skip(1), name));
    } else {
        star_matches_everything(name.skip(1));
    }
}

/// A pattern without wildcards covers the name it spells, in any case of its
/// letters, and no other.
pub proof fn plain_pattern_matches_itself_only(pattern: Seq<char>, name: Seq<char>)
    requires
        !pattern.contains('*'),
        !pattern.contains('?'),
    ensures
        glob(pattern, name) <==> text::lowered(pattern) == text::lowered(name),
    decreases pattern.len(),
{
    if pattern.len() == 0 {
        if name.len() == 0 {
            assert(text::lowered(pattern) =~= text::lowered(name));
        } else {
            assert(text::lowered(pattern).len() != text::lowered(name).len());
        }
    } else if name.len() == 0 {
        assert(text::lowered(pattern).len() != text::lowered(name).len());
        assert(pattern.contains(pattern[0]));
    } else {
        assert(pattern.contains(pattern[0]));
        assert forall|c: char| pattern.skip(1).contains(c) implies pattern.contains(c) by {
            let k = choose|k: int| 0 <= k < pattern.skip(1).len() && pattern.skip(1)[k] == c;
            assert(pattern[k + 1] == c);
        }
        plain_pattern_matches_itself_only(pattern.skip(1), name.skip(1));
        let p = text::lowered(pattern);
        let n = text::lowered(name);
        assert(text::lowered(pattern.skip(1)) =~= p.skip(1));
        assert(text::lowered(name.skip(1)) =~= n.skip(1));
        if p == n {
            assert(p[0] == n[0]);
        }
        if p[0] == n[0] && p.skip(1) == n.skip(1) {
            assert(p =~= seq![p[0]] + p.skip(1));
            assert(n =~= seq![n[0]] + n.skip(1));
        }
    }
}

/// `row[k]` tells whether `pattern` covers `name` from `k` on.
spec fn row_is(row: Seq<bool>, pattern: Seq<char>, name: Seq<char>) -> bool {
    row.len() == name.len() + 1 && forall|k: int|
        0 <= k <= name.len() ==> #[trigger] row[k] == glob(pattern, name.skip(k))
}

fn empty_row(name: &Vec<char>) -> (r: Vec<bool>)
    ensures
        row_is(r@, Seq::empty(), name@),
{
    let mut row: Vec<bool> = Vec::new();
    let mut i: usize = 0;
    while i < name.len()
        invariant
            i <= name@.len(),
            row@.len() == i,
            forall|k: int| 0 <= k < i ==> !row@[k],
        decreases name.len() - i,
    {
        row.push(false);
        i += 1;
    }
    row.push(true);
    row
}

fn star_row(row: &mut Vec<bool>, Ghost(pattern): Ghost<Seq<char>>, Ghost(name): Ghost<Seq<char>>)
    requires
        pattern.len() > 0,
        pattern[0] == '*',
        row_is(old(row)@, pattern.skip(1), name),
    ensures
        row_is(final(row)@, pattern, name),
{
    let mut j: usize = row.len();
    while j > 0
        invariant
            pattern.len() > 0,
            pattern[0] == '*',
            j <= row@.len(),
            row@.len() == name.len() + 1,
            forall|k: int| 0 <= k < j ==> #[trigger] row@[k] == glob(pattern.skip(1), name.skip(k)),
            forall|k: int| j <= k <= name.len() ==> #[trigger] row@[k] == glob(pattern, name.skip(k)),
        decreases j,
    {
        j -= 1;
        let covered: bool = row[j] || (j + 1 < row.len() && row[j + 1]);
        proof {
            if j < name.len() {
                assert(name.skip(j as int).skip(1) =~= name.skip(j + 1));
            }
        }
        row.set(j, covered);
    }
}

fn one_row(row: &mut Vec<bool>, c: char, name: &Vec<char>, Ghost(pattern): Ghost<Seq<char>>)
    requires
        pattern.len() > 0,
        pattern[0] == c,
        c != '*',
        row_is(old(row)@, pattern.skip(1), name@),
    ensures
        row_is(final(row)@, pattern, name@),
{
    let mut j: usize = 0;
    while j < name.len()
        invariant
            pattern.len() > 0,
            pattern[0] == c,
            c != '*',
            j <= name@.len(),
            row@.len() == name@.len() + 1,
            forall|k: int| 0 <= k < j ==> #[trigger] row@[k] == glob(pattern, name@.skip(k)),
            forall|k: int|
                j <= k <= name@.len() ==> #[trigger] row@[k] == glob(
                    pattern.skip(1),
                    name@.skip(k),
                ),
        decreases name.len() - j,
    {
        let fits: bool = c == '?' || text::to_lower_ascii(c) == text::to_lower_ascii(name[j]);
        assert(name@.skip(j as int).skip(1) =~= name@.skip(j + 1));
        let covered: bool = fits && row[j + 1];
        row.set(j, covered);
        j += 1;
    }
    assert(!glob(pattern, name@.skip(j as int)));
    row.set(j, false);
}

/// Whether `name` has the shape of `pattern`.
pub fn glob_matches(pattern: &str, name: &str) -> (r: bool)
    ensures
        r == glob(pattern@, name@),
{
    let p = text::chars_of(pattern);
    let t = text::chars_of(name);
    let mut row = empty_row(&t);
    let mut i: usize = p.len();
    assert(p@.skip(i as int) =~= Seq::empty());
    while i > 0
        invariant
            i <= p@.len(),
            p@ == pattern@,
            t@ == name@,
            row_is(row@, p@.skip(i as int), t@),
        decreases i,
    {
        i -= 1;
        let c = p[i];
        assert(p@.skip(i as int).skip(1) =~= p@.skip(i + 1));
        if c == '*' {
            star_row(&mut row, Ghost(p@.skip(i as int)), Ghost(t@));
        } else {
            one_row(&mut row, c, &t, Ghost(p@.skip(i as int)));
        }
    }
    assert(p@.skip(0) =~= pattern@);
    assert(t@.skip(0) =~= name@);
    assert(row@[0] == glob(p@.skip(0), t@.skip(0)));
    row[0]
}

/// The keys that have to be told apart.
proof fn lemma_keys_differ()
    ensures
        "anthropic"@ != "fireworks"@,
        "anthropic"@ != "deepinfra"@,
        "openai"@ != "gemini"@,
        "openai"@ != "nebius"@,
        "openai"@ != "chutes"@,
        "openai-api"@ != "nvidia-nim"@,
        "openai-api"@ != "gemini-api"@,
        "openai-api"@ != "openrouter"@,
        "openai-api"@ != "moonshotai"@,
        "openai-api"@ != "togetherai"@,
        "openai-api"@ != "perplexity"@,
        "kimi"@ != "groq"@,
        "fireworks"@ != "deepinfra"@,
        "nvidia-nim"@ != "gemini-api"@,
        "nvidia-nim"@ != "openrouter"@,
        "nvidia-nim"@ != "moonshotai"@,
        "nvidia-nim"@ != "togetherai"@,
        "nvidia-nim"@ != "perplexity"@,
        "bedrock"@ != "mistral"@,
        "bedrock"@ != "minimax"@,
        "bedrock"@ != "stackit"@,
        "bedrock"@ != "baseten"@,
        "bedrock"@ != "cortecs"@,
        "azure"@ != "302ai"@,
        "gemini"@ != "nebius"@,
        "gemini"@ != "chutes"@,
        "gemini-api"@ != "openrouter"@,
        "gemini-api"@ != "moonshotai"@,
        "gemini-api"@ != "togetherai"@,
        "gemini-api"@ != "perplexity"@,
        "openrouter"@ != "moonshotai"@,
        "openrouter"@ != "togetherai"@,
        "openrouter"@ != "perplexity"@,
        "opencode"@ != "deepseek"@,
        "opencode"@ != "cerebras"@,
        "opencode"@ != "scaleway"@,
        "opencode-go"@ != "huggingface"@,
        "deepseek"@ != "cerebras"@,
        "deepseek"@ != "scaleway"@,
        "moonshotai"@ != "togetherai"@,
        "moonshotai"@ != "perplexity"@,
        "zai"@ != "xai"@,
        "cerebras"@ != "scaleway"@,
        "mistral"@ != "minimax"@,
        "mistral"@ != "stackit"@,
        "mistral"@ != "baseten"@,
        "mistral"@ != "cortecs"@,
        "minimax"@ != "stackit"@,
        "minimax"@ != "baseten"@,
        "minimax"@ != "cortecs"@,
        "togetherai"@ != "perplexity"@,
        "nebius"@ != "chutes"@,
        "stackit"@ != "baseten"@,
        "stackit"@ != "cortecs"@,
        "baseten"@ != "cortecs"@,
        "anthropic"@.len() == 9,
        "anthropic-api"@.len() == 13,
        "openai"@.len() == 6,
        "openai:api-key"@.len() == 14,
        "openai-api"@.len() == 10,
        "kimi"@.len() == 4,
        "fireworks"@.len() == 9,
        "nvidia-nim"@.len() == 10,
        "alibaba-coding-plan"@.len() == 19,
        "bedrock"@.len() == 7,
        "azure-openai"@.len() == 12,
        "azure"@.len() == 5,
        "gemini"@.len() == 6,
        "gemini-api"@.len() == 10,
        "openrouter"@.len() == 10,
        "opencode"@.len() == 8,
        "opencode-go"@.len() == 11,
        "deepseek"@.len() == 8,
        "moonshotai"@.len() == 10,
        "zai"@.len() == 3,
        "cerebras"@.len() == 8,
        "groq"@.len() == 4,
        "mistral"@.len() == 7,
        "xai"@.len() == 3,
        "minimax"@.len() == 7,
        "togetherai"@.len() == 10,
        "deepinfra"@.len() == 9,
        "perplexity"@.len() == 10,
        "nebius"@.len() == 6,
        "scaleway"@.len() == 8,
        "stackit"@.len() == 7,
        "huggingface"@.len() == 11,
        "baseten"@.len() == 7,
        "chutes"@.len() == 6,
        "302ai"@.len() == 5,
        "cortecs"@.len() == 7,
{
    reveal_strlit("anthropic");
    reveal_strlit("anthropic-api");
    reveal_strlit("openai");
    reveal_strlit("openai:api-key");
    reveal_strlit("openai-api");
    reveal_strlit("kimi");
    reveal_strlit("fireworks");
    reveal_strlit("nvidia-nim");
    reveal_strlit("alibaba-coding-plan");
    reveal_strlit("bedrock");
    reveal_strlit("azure-openai");
    reveal_strlit("azure");
    reveal_strlit("gemini");
    reveal_strlit("gemini-api");
    reveal_strlit("openrouter");
    reveal_strlit("opencode");
    reveal_strlit("opencode-go");
    reveal_strlit("deepseek");
    reveal_strlit("moonshotai");
    reveal_strlit("zai");
    reveal_strlit("cerebras");
    reveal_strlit("groq");
    reveal_strlit("mistral");
    reveal_strlit("xai");
    reveal_strlit("minimax");
    reveal_strlit("togetherai");
    reveal_strlit("deepinfra");
    reveal_strlit("perplexity");
    reveal_strlit("nebius");
    reveal_strlit("scaleway");
    reveal_strlit("stackit");
    reveal_strlit("huggingface");
    reveal_strlit("baseten");
    reveal_strlit("chutes");
    reveal_strlit("302ai");
    reveal_strlit("cortecs");
    assert("anthropic"@[0] != "fireworks"@[0]);
    assert("anthropic"@[0] != "deepinfra"@[0]);
    assert("openai"@[0] != "gemini"@[0]);
    assert("openai"@[0] != "nebius"@[0]);
    assert("openai"@[0] != "chutes"@[0]);
    assert("openai-api"@[0] != "nvidia-nim"@[0]);
    assert("openai-api"@[0] != "gemini-api"@[0]);
    assert("openai-api"@[4] != "openrouter"@[4]);
    assert("openai-api"@[0] != "moonshotai"@[0]);
    assert("openai-api"@[0] != "togetherai"@[0]);
    assert("openai-api"@[0] != "perplexity"@[0]);
    assert("kimi"@[0] != "groq"@[0]);
    assert("fireworks"@[0] != "deepinfra"@[0]);
    assert("nvidia-nim"@[0] != "gemini-api"@[0]);
    assert("nvidia-nim"@[0] != "openrouter"@[0]);
    assert("nvidia-nim"@[0] != "moonshotai"@[0]);
    assert("nvidia-nim"@[0] != "togetherai"@[0]);
    assert("nvidia-nim"@[0] != "perplexity"@[0]);
    assert("bedrock"@[0] != "mistral"@[0]);
    assert("bedrock"@[0] != "minimax"@[0]);
    assert("bedrock"@[0] != "stackit"@[0]);
    assert("bedrock"@[1] != "baseten"@[1]);
    assert("bedrock"@[0] != "cortecs"@[0]);
    assert("azure"@[0] != "302ai"@[0]);
    assert("gemini"@[0] != "nebius"@[0]);
    assert("gemini"@[0] != "chutes"@[0]);
    assert("gemini-api"@[0] != "openrouter"@[0]);
    assert("gemini-api"@[0] != "moonshotai"@[0]);
    assert("gemini-api"@[0] != "togetherai"@[0]);
    assert("gemini-api"@[0] != "perplexity"@[0]);
    assert("openrouter"@[0] != "moonshotai"@[0]);
    assert("openrouter"@[0] != "togetherai"@[0]);
    assert("openrouter"@[0] != "perplexity"@[0]);
    assert("opencode"@[0] != "deepseek"@[0]);
    assert("opencode"@[0] != "cerebras"@[0]);
    assert("opencode"@[0] != "scaleway"@[0]);
    assert("opencode-go"@[0] != "huggingface"@[0]);
    assert("deepseek"@[0] != "cerebras"@[0]);
    assert("deepseek"@[0] != "scaleway"@[0]);
    assert("moonshotai"@[0] != "togetherai"@[0]);
    assert("moonshotai"@[0] != "perplexity"@[0]);
    assert("zai"@[0] != "xai"@[0]);
    assert("cerebras"@[0] != "scaleway"@[0]);
    assert("mistral"@[2] != "minimax"@[2]);
    assert("mistral"@[0] != "stackit"@[0]);
    assert("mistral"@[0] != "baseten"@[0]);
    assert("mistral"@[0] != "cortecs"@[0]);
    assert("minimax"@[0] != "stackit"@[0]);
    assert("minimax"@[0] != "baseten"@[0]);
    assert("minimax"@[0] != "cortecs"@[0]);
    assert("togetherai"@[0] != "perplexity"@[0]);
    assert("nebius"@[0] != "chutes"@[0]);
    assert("stackit"@[0] != "baseten"@[0]);
    assert("stackit"@[0] != "cortecs"@[0]);
    assert("baseten"@[0] != "cortecs"@[0]);
}

/// A key of the runtime is looked up under the id that models.dev gives the same
/// provider: most have the same name there, and some another one. The vendor with
/// both kinds of billing is known by its key, its API key and its models.dev id.
pub proof fn provider_keys_have_their_ids(key: Seq<char>, names: NamesView)
    requires
        key != names.key,
        key != names.key + ":api-key"@,
    ensures
        key == "openai"@ ==> dev_id_of_plain(key, names) == Some("openai"@),
        key == "openai:api-key"@ ==> dev_id_of_plain(key, names) == Some("openai"@),
        key == "openai-api"@ ==> dev_id_of_plain(key, names) == Some("openai"@),
        key == "kimi"@ ==> dev_id_of_plain(key, names) == Some("kimi-for-coding"@),
        key == "fireworks"@ ==> dev_id_of_plain(key, names) == Some("fireworks-ai"@),
        key == "nvidia-nim"@ ==> dev_id_of_plain(key, names) == Some("nvidia"@),
        key == "alibaba-coding-plan"@ ==> dev_id_of_plain(key, names) == Some("alibaba"@),
        key == "bedrock"@ ==> dev_id_of_plain(key, names) == Some("amazon-bedrock"@),
        key == "azure-openai"@ ==> dev_id_of_plain(key, names) == Some("azure"@),
        key == "azure"@ ==> dev_id_of_plain(key, names) == Some("azure"@),
        key == "gemini"@ ==> dev_id_of_plain(key, names) == Some("google"@),
        key == "gemini-api"@ ==> dev_id_of_plain(key, names) == Some("google"@),
        key == "openrouter"@ ==> dev_id_of_plain(key, names) == Some(key),
        key == "opencode"@ ==> dev_id_of_plain(key, names) == Some(key),
        key == "opencode-go"@ ==> dev_id_of_plain(key, names) == Some(key),
        key == "deepseek"@ ==> dev_id_of_plain(key, names) == Some(key),
        key == "moonshotai"@ ==> dev_id_of_plain(key, names) == Some(key),
        key == "zai"@ ==> dev_id_of_plain(key, names) == Some(key),
        key == "cerebras"@ ==> dev_id_of_plain(key, names) == Some(key),
        key == "groq"@ ==> dev_id_of_plain(key, names) == Some(key),
        key == "mistral"@ ==> dev_id_of_plain(key, names) == Some(key),
        key == "xai"@ ==> dev_id_of_plain(key, names) == Some(key),
        key == "minimax"@ ==> dev_id_of_plain(key, names) == Some(key),
        key == "togetherai"@ ==> dev_id_of_plain(key, names) == Some(key),
        key == "deepinfra"@ ==> dev_id_of_plain(key, names) == Some(key),
        key == "perplexity"@ ==> dev_id_of_plain(key, names) == Some(key),
        key == "nebius"@ ==> dev_id_of_plain(key, names) == Some(key),
        key == "scaleway"@ ==> dev_id_of_plain(key, names) == Some(key),
        key == "stackit"@ ==> dev_id_of_plain(key, names) == Some(key),
        key == "huggingface"@ ==> dev_id_of_plain(key, names) == Some(key),
        key == "baseten"@ ==> dev_id_of_plain(key, names) == Some(key),
        key == "chutes"@ ==> dev_id_of_plain(key, names) == Some(key),
        key == "302ai"@ ==> dev_id_of_plain(key, names) == Some(key),
        key == "cortecs"@ ==> dev_id_of_plain(key, names) == Some(key),
        key == "anthropic"@ || key == "anthropic-api"@ ==> dev_id_of_plain(key, names) == Some(
            "anthropic"@,
        ),
        dev_id_of_plain(names.key, names) == Some("anthropic"@),
        dev_id_of_plain(names.key + ":api-key"@, names) == Some("anthropic"@),
{
    lemma_keys_differ();
}

/// A key that is none of the known ones has no models.dev id.
pub proof fn unknown_key_has_no_id(key: Seq<char>, names: NamesView)
    requires
        key != names.key,
        key != names.key + ":api-key"@,
        key != "anthropic"@,
        key != "anthropic-api"@,
        key != "openai"@,
        key != "openai:api-key"@,
        key != "openai-api"@,
        key != "kimi"@,
        key != "fireworks"@,
        key != "nvidia-nim"@,
        key != "alibaba-coding-plan"@,
        key != "bedrock"@,
        key != "azure-openai"@,
        key != "azure"@,
        key != "gemini"@,
        key != "gemini-api"@,
        key != "openrouter"@,
        key != "opencode"@,
        key != "opencode-go"@,
        key != "deepseek"@,
        key != "moonshotai"@,
        key != "zai"@,
        key != "cerebras"@,
        key != "groq"@,
        key != "mistral"@,
        key != "xai"@,
        key != "minimax"@,
        key != "togetherai"@,
        key != "deepinfra"@,
        key != "perplexity"@,
        key != "nebius"@,
        key != "scaleway"@,
        key != "stackit"@,
        key != "huggingface"@,
        key != "baseten"@,
        key != "chutes"@,
        key != "302ai"@,
        key != "cortecs"@,
    ensures
        dev_id_of_plain(key, names) is None,
{
}

proof fn lemma_strip(s: Seq<char>, prefix: Seq<char>, rest: Seq<char>)
    ensures
        text::stripped(s, prefix) == Some(rest) <==> s == prefix + rest,
{
    if s == prefix + rest {
        assert(s.take(prefix.len() as int) =~= prefix);
        assert(s.skip(prefix.len() as int) =~= rest);
    }
    if text::stripped(s, prefix) == Some(rest) {
        assert(s =~= s.take(prefix.len() as int) + s.skip(prefix.len() as int));
    }
}

/// Two keys name the same provider where they are equal, where one is the other
/// behind the prefix of compatible profiles, and where they have one models.dev
/// id; and nowhere else. White space around the key of the config does not count.
pub proof fn keys_name_the_same_provider(
    config_key: Seq<char>,
    source_key: Seq<char>,
    names: NamesView,
)
    ensures
        same_provider(config_key, source_key, names) <==> {
            let key = text::trimmed(config_key);
            ||| key == source_key
            ||| key == "openai-compatible:"@ + source_key
            ||| source_key == "openai-compatible:"@ + key
            ||| dev_id(key, names) is Some && dev_id(key, names) == dev_id(source_key, names)
        },
{
    let key = text::trimmed(config_key);
    lemma_strip(key, "openai-compatible:"@, source_key);
    lemma_strip(source_key, "openai-compatible:"@, key);
}

/// A key has the same models.dev id with the prefix of compatible profiles and
/// without it.
pub proof fn profile_prefix_does_not_change_the_id(key: Seq<char>, names: NamesView)
    requires
        text::trimmed(key) == key,
        text::trimmed("openai-compatible:"@ + key) == "openai-compatible:"@ + key,
        text::stripped(key, "openai-compatible:"@) is None,
    ensures
        dev_id("openai-compatible:"@ + key, names) == dev_id(key, names),
        dev_id(key, names) == dev_id_of_plain(key, names),
{
    lemma_strip("openai-compatible:"@ + key, "openai-compatible:"@, key);
}

/// A question mark of a glob stands for exactly one character, whichever.
pub proof fn question_mark_is_one_character(pattern: Seq<char>, name: Seq<char>, c: char)
    ensures
        glob(seq!['?'] + pattern, seq![c] + name) == glob(pattern, name),
        !glob(seq!['?'] + pattern, Seq::empty()),
{
    assert((seq!['?'] + pattern).skip(1) =~= pattern);
    assert((seq![c] + name).skip(1) =~= name);
}

/// A letter of a glob stands for itself, in either case.
pub proof fn letter_is_itself(pattern: Seq<char>, name: Seq<char>, p: char, c: char)
    requires
        p != '*',
        p != '?',
    ensures
        glob(seq![p] + pattern, seq![c] + name) == (text::lower_ascii(p) == text::lower_ascii(c)
            && glob(pattern, name)),
        !glob(seq![p] + pattern, Seq::empty()),
{
    assert((seq![p] + pattern).skip(1) =~= pattern);
    assert((seq![c] + name).skip(1) =~= name);
}

/// A star of a glob stands for any text, the empty one included: what follows it
/// has to fit some rest of the name.
pub proof fn star_is_any_text(pattern: Seq<char>, name: Seq<char>)
    ensures
        glob(seq!['*'] + pattern, name) <==> exists|k: int|
            0 <= k <= name.len() && glob(pattern, #[trigger] name.skip(k)),
    decreases name.len(),
{
    let starred = seq!['*'] + pattern;
    assert(starred.skip(1) =~= pattern);
    assert(name.skip(0) =~= name);
    if name.len() > 0 {
        let rest = name.skip(1);
        star_is_any_text(pattern, rest);
        if glob(starred, rest) {
            let k = choose|k: int| 0 <= k <= rest.len() && glob(pattern, #[trigger] rest.skip(k));
            assert(rest.skip(k) =~= name.skip(k + 1));
        }
        if exists|k: int| 0 <= k <= name.len() && glob(pattern, #[trigger] name.skip(k)) {
            let k = choose|k: int| 0 <= k <= name.len() && glob(pattern, #[trigger] name.skip(k));
            if k > 0 {
                assert(rest.skip(k - 1) =~= name.skip(k));
            }
        }
    } else if exists|k: int| 0 <= k <= name.len() && glob(pattern, #[trigger] name.skip(k)) {
        let k = choose|k: int| 0 <= k <= name.len() && glob(pattern, #[trigger] name.skip(k));
        assert(name.skip(k) =~= name);
    }
}

/// An empty glob covers the empty name alone.
pub proof fn empty_glob_is_the_empty_name(name: Seq<char>)
    ensures
        glob(Seq::empty(), name) == (name.len() == 0),
{
}

/// The keys of a subscription login and of an API key are made of the vendor's
/// key.
pub proof fn vendor_keys_are_built_from_its_name(names: NamesView)
    ensures
        names.api_key() == names.key + ":api-key"@,
        names.login_prefix() == names.key + ":oauth:"@,
{
}

proof fn lemma_last_index_of(front: Seq<char>, c: char, back: Seq<char>)
    requires
        !back.contains(c),
    ensures
        text::last_index(front + seq![c] + back, c) == front.len(),
{
    let s = front + seq![c] + back;
    text::last_place_has_none_after_it(s, c);
    assert(s[front.len() as int] == c);
    let at = text::last_index(s, c);
    if at > front.len() {
        assert(s[at] == back[at - front.len() - 1]);
    }
}

proof fn lemma_last_index_none(s: Seq<char>, c: char)
    requires
        !s.contains(c),
    ensures
        text::last_index(s, c) == -1,
{
    text::last_place_has_none_after_it(s, c);
}

/// A model id without a pin stays as it is, and one that is marked for the long
/// context loses the mark.
pub proof fn long_context_mark_is_dropped(base: Seq<char>)
    requires
        text::trimmed(base) == base,
        !base.contains('@'),
    ensures
        !text::ends(base, "[1m]"@) ==> normal_id(base) == base,
        normal_id(base + "[1m]"@) == base,
{
    reveal_strlit("[1m]");
    lemma_last_index_none(base, '@');
    let marked = base + "[1m]"@;
    text::parts_are_found_again(base, "[1m]"@);
    assert(marked.take(marked.len() - 4) =~= base);
}

/// A model id that is pinned to an endpoint after its last `@` loses the pin,
/// with or without the mark of the long context behind it.
pub proof fn endpoint_pin_is_dropped(base: Seq<char>, pin: Seq<char>)
    requires
        text::trimmed(base) == base,
        !pin.contains('@'),
        text::trimmed(base + seq!['@'] + pin) == base + seq!['@'] + pin,
    ensures
        !text::ends(base + seq!['@'] + pin, "[1m]"@) ==> normal_id(base + seq!['@'] + pin) == base,
        normal_id(base + seq!['@'] + pin + "[1m]"@) == base,
{
    reveal_strlit("[1m]");
    let pinned = base + seq!['@'] + pin;
    lemma_last_index_of(base, '@', pin);
    assert(pinned.take(base.len() as int) =~= base);
    let marked = pinned + "[1m]"@;
    text::parts_are_found_again(pinned, "[1m]"@);
    assert(marked.take(marked.len() - 4) =~= pinned);
}

/// What stands behind the last slash of a model id is its bare name; an id
/// without a slash has no prefix.
pub proof fn bare_name_stands_behind_the_last_slash(front: Seq<char>, name: Seq<char>)
    requires
        !name.contains('/'),
    ensures
        unprefixed(front + seq!['/'] + name) == Some(name),
        unprefixed(name) is None,
{
    lemma_last_index_of(front, '/', name);
    lemma_last_index_none(name, '/');
    assert((front + seq!['/'] + name).skip((front.len() + 1) as int) =~= name);
}

/// The profile with an id is the first that has it.
pub proof fn first_profile_with_the_id_is_found(
    profiles: Seq<ProfileView>,
    id: Seq<char>,
    from: int,
)
    requires
        0 <= from,
    ensures
        match profile_from(profiles, id, from) {
            Some(i) => from <= i < profiles.len() && profiles[i].id == id && forall|k: int|
                from <= k < i ==> (#[trigger] profiles[k]).id != id,
            None => forall|k: int| from <= k < profiles.len() ==> (#[trigger] profiles[k]).id != id,
        },
    decreases profiles.len() - from,
{
    if from < profiles.len() && profiles[from].id != id {
        first_profile_with_the_id_is_found(profiles, id, from + 1);
    }
}

/// A key is known when its provider has an id, when a profile has that id or
/// that name in any case, with or without the prefix of profiles, and when it is
/// one of the four subscriptions in any case. White space round it does not
/// count, and nothing but white space is not known.
pub proof fn keys_are_known_by_id_profile_or_name(
    key: Seq<char>,
    profiles: Seq<ProfileView>,
    names: NamesView,
)
    ensures
        ({
            let k = text::trimmed(key);
            let lower = text::lowered(k);
            let named = |p: ProfileView, name: Seq<char>|
                p.id == name || text::lowered(p.display_name) == text::lowered(name);
            &&& k.len() == 0 ==> !known_key(key, profiles, names)
            &&& k.len() > 0 && dev_id(k, names) is Some ==> known_key(key, profiles, names)
            &&& k.len() > 0 && (lower == "jcode"@ || lower == "copilot"@ || lower == "cursor"@
                || lower == "antigravity"@) ==> known_key(key, profiles, names)
            &&& forall|i: int|
                0 <= i < profiles.len() && k.len() > 0 && !text::begins(k, "openai-compatible:"@)
                    && named(#[trigger] profiles[i], k) ==> known_key(key, profiles, names)
            &&& forall|i: int|
                0 <= i < profiles.len() && text::begins(k, "openai-compatible:"@) && k.len() > 0
                    && named(#[trigger] profiles[i], k.skip("openai-compatible:"@.len() as int))
                    ==> known_key(key, profiles, names)
            &&& dev_id(k, names) is None && lower != "jcode"@ && lower != "copilot"@ && lower
                != "cursor"@ && lower != "antigravity"@ && !text::begins(k, "openai-compatible:"@)
                && (forall|i: int|
                0 <= i < profiles.len() ==> !named(#[trigger] profiles[i], k)) ==> !known_key(
                key,
                profiles,
                names,
            )
        }),
{
}

/// The keys that are not known are listed in their order, each as often as it
/// occurs, and no known one is.
pub proof fn unknown_keys_are_listed_in_order(
    front: Seq<Seq<char>>,
    key: Seq<char>,
    profiles: Seq<ProfileView>,
    names: NamesView,
)
    ensures
        unknown_keys(front.push(key), profiles, names) == if known_key(key, profiles, names) {
            unknown_keys(front, profiles, names)
        } else {
            unknown_keys(front, profiles, names).push(key)
        },
        unknown_keys(Seq::empty(), profiles, names).len() == 0,
{
    reveal(Seq::filter);
    assert(front.push(key).drop_last() =~= front);
}

} // verus!
