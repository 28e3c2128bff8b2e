//! Names of providers: how a ledger key is shown, which key a label stands for,
//! and how long ago something was.

use crate::model;
use crate::providers;
use crate::providers::{NamesView, Profile, ProfileView, VendorNames};
use crate::text;
use vstd::prelude::*;

verus! {

/// The parts of a text between its dashes, without the empty ones.
pub open spec fn parts(s: Seq<char>) -> Seq<Seq<char>>
    decreases s.len(),
{
    let i = text::first_index(s, '-');
    if s.len() == 0 || i < 0 {
        Seq::empty()
    } else {
        let rest = if i < s.len() {
            parts(s.skip(i + 1))
        } else {
            Seq::empty()
        };
        if i == 0 {
            rest
        } else {
            seq![s.take(i)] + rest
        }
    }
}

/// The parts with a separator between them.
pub open spec fn joined(texts: Seq<Seq<char>>, separator: Seq<char>) -> Seq<char>
    decreases texts.len(),
{
    if texts.len() == 0 {
        Seq::empty()
    } else if texts.len() == 1 {
        texts[0]
    } else {
        joined(texts.drop_last(), separator) + separator + texts.last()
    }
}

/// The parts of `s` between its dashes, without the empty ones.
fn split_dashes(s: &Vec<char>) -> (r: Vec<String>)
    ensures
        model::seq_view(r@) == parts(s@),
{
    let mut out: Vec<String> = Vec::new();
    let n: usize = s.len();
    let mut start: usize = 0;
    assert(s@.skip(0) =~= s@);
    assert(model::seq_view(out@) + parts(s@) =~= parts(s@));
    while start < n
        invariant
            n == s@.len(),
            start <= n,
            parts(s@) == model::seq_view(out@) + parts(s@.skip(start as int)),
        decreases n - start,
    {
        let ghost rest = s@.skip(start as int);
        let ghost before = model::seq_view(out@);
        let mut end: usize = start;
        assert(rest.skip(0) =~= rest);
        while end < n && s[end] != '-'
            invariant
                n == s@.len(),
                start <= end <= n,
                rest == s@.skip(start as int),
                text::first_index(rest, '-') == (end - start) + text::first_index(
                    rest.skip(end - start),
                    '-',
                ),
            decreases n - end,
        {
            assert(rest.skip(end - start).skip(1) =~= rest.skip(end - start + 1));
            assert(rest.skip(end - start)[0] == s@[end as int]);
            end += 1;
        }
        assert(end < n ==> rest.skip(end - start)[0] == s@[end as int]);
        assert(text::first_index(rest, '-') == end - start);
        if end > start {
            out.push(text::text_of(s, start, end));
            assert(s@.subrange(start as int, end as int) =~= rest.take(end - start));
            assert(model::seq_view(out@) =~= before.push(rest.take(end - start)));
        }
        if end < n {
            assert(rest.skip(end - start + 1) =~= s@.skip(end + 1));
            start = end + 1;
        } else {
            start = n;
            assert(s@.skip(n as int) =~= Seq::empty());
        }
        assert(before + parts(rest) =~= model::seq_view(out@) + parts(s@.skip(start as int)));
    }
    assert(s@.skip(start as int) =~= Seq::empty());
    assert(model::seq_view(out@) + parts(Seq::empty()) =~= model::seq_view(out@));
    out
}

/// Join texts with a separator.
fn join(texts: &Vec<String>, separator: &str) -> (r: String)
    ensures
        r@ == joined(model::seq_view(texts@), separator@),
{
    let ghost all = model::seq_view(texts@);
    if texts.len() == 0 {
        let out = String::new();
        assert(out@ =~= Seq::empty());
        return out;
    }
    let mut out = texts[0].clone();
    assert(all.take(1) =~= seq![all[0]]);
    let mut i: usize = 1;
    while i < texts.len()
        invariant
            1 <= i <= texts@.len(),
            all == model::seq_view(texts@),
            out@ == joined(all.take(i as int), separator@),
        decreases texts.len() - i,
    {
        assert(all.take(i + 1).drop_last() =~= all.take(i as int));
        assert(all.take(i + 1).last() == all[i as int]);
        out = text::join3(out.as_str(), separator, texts[i].as_str());
        i += 1;
    }
    assert(all.take(i as int) =~= all);
    out
}

/// What `char::to_uppercase` gives for a character.
pub uninterp spec fn uppercase_of(c: char) -> Seq<char>;

/// `char::to_uppercase`: the Unicode uppercase mapping of a character, which can
/// be more than one. The result depends on the character alone; an ASCII
/// character is mapped to the one that its capital letter is, or to itself.
#[verifier::external_body]
fn uppercase(c: char) -> (r: String)
    ensures
        r@ == uppercase_of(c),
        (c as u32) < 128 ==> r@ == seq![text::upper_ascii(c)],
{
    c.to_uppercase().to_string()
}

/// The upper case of a character: its capital letter, or itself, where it is
/// ASCII.
pub open spec fn upper(c: char) -> Seq<char> {
    if (c as u32) < 128 {
        seq![text::upper_ascii(c)]
    } else {
        uppercase_of(c)
    }
}

/// A part with its first character in upper case.
pub open spec fn capitalized(part: Seq<char>) -> Seq<char> {
    if part.len() == 0 {
        part
    } else {
        upper(part[0]) + part.skip(1)
    }
}

fn capitalize(part: &str) -> (r: String)
    ensures
        r@ == capitalized(part@),
{
    let letters = text::chars_of(part);
    let n: usize = letters.len();
    if n == 0 {
        return text::owned(part);
    }
    let first = uppercase(letters[0]);
    let rest = text::text_of(&letters, 1, n);
    assert(letters@.subrange(1, n as int) =~= part@.skip(1));
    text::join2(first.as_str(), rest.as_str())
}

/// The title that a slug stands for.
pub open spec fn title(slug: Seq<char>) -> Seq<char> {
    joined(parts(slug).map_values(|part: Seq<char>| capitalized(part)), " "@)
}

fn title_of(slug: &str) -> (r: String)
    ensures
        r@ == title(slug@),
{
    let letters = text::chars_of(slug);
    let pieces = split_dashes(&letters);
    let ghost all = model::seq_view(pieces@);
    let ghost f = |part: Seq<char>| capitalized(part);
    let mut out: Vec<String> = Vec::new();
    let mut i: usize = 0;
    while i < pieces.len()
        invariant
            i <= pieces@.len(),
            all == model::seq_view(pieces@),
            out@.len() == i,
            forall|k: int| 0 <= k < i ==> (#[trigger] out@[k])@ == capitalized(all[k]),
        decreases pieces.len() - i,
    {
        out.push(capitalize(pieces[i].as_str()));
        i += 1;
    }
    assert(model::seq_view(out@) =~= all.map_values(f));
    join(&out, " ")
}

/// The name of a credential that the table knows.
pub open spec fn known_name(key: Seq<char>, names: NamesView) -> Option<Seq<char>> {
    if key == names.api_key() {
        Some("Anthropic API key"@)
    } else if key == "openai:api-key"@ {
        Some("OpenAI API key"@)
    } else if key == "openrouter"@ {
        Some("OpenRouter"@)
    } else if key == "jcode"@ {
        Some("Jcode subscription"@)
    } else if key == "copilot"@ {
        Some("GitHub Copilot"@)
    } else if key == "gemini"@ {
        Some("Google Gemini"@)
    } else if key == "cursor"@ {
        Some("Cursor"@)
    } else if key == "bedrock"@ {
        Some("AWS Bedrock"@)
    } else if key == "antigravity"@ {
        Some("Antigravity"@)
    } else if key == "azure-openai"@ {
        Some("Azure OpenAI"@)
    } else {
        None
    }
}

fn table_name(key: &str, names: &VendorNames) -> (r: Option<&'static str>)
    ensures
        match r {
            Some(name) => known_name(key@, names@) == Some(name@),
            None => known_name(key@, names@) is None,
        },
{
    let api_key = names.api_key();
    if text::same(key, api_key.as_str()) {
        Some("Anthropic API key")
    } else if text::same(key, "openai:api-key") {
        Some("OpenAI API key")
    } else if text::same(key, "openrouter") {
        Some("OpenRouter")
    } else if text::same(key, "jcode") {
        Some("Jcode subscription")
    } else if text::same(key, "copilot") {
        Some("GitHub Copilot")
    } else if text::same(key, "gemini") {
        Some("Google Gemini")
    } else if text::same(key, "cursor") {
        Some("Cursor")
    } else if text::same(key, "bedrock") {
        Some("AWS Bedrock")
    } else if text::same(key, "antigravity") {
        Some("Antigravity")
    } else if text::same(key, "azure-openai") {
        Some("Azure OpenAI")
    } else {
        None
    }
}

/// The name that a profile id is shown by: the profile's, else the id itself.
pub open spec fn profile_name(profiles: Seq<ProfileView>, id: Seq<char>) -> Seq<char> {
    match providers::profile_from(profiles, id, 0) {
        Some(i) => profiles[i].display_name,
        None => id,
    }
}

/// How a ledger key is shown.
pub open spec fn shown_key(
    key: Seq<char>,
    profiles: Seq<ProfileView>,
    names: NamesView,
) -> Seq<char> {
    match text::stripped(key, "openai-compatible:"@) {
        Some(id) => profile_name(profiles, id) + " (API key)"@,
        None => match text::stripped(key, names.login_prefix()) {
            Some(label) => "Anthropic ("@ + names.title + ") ["@ + label + "]"@,
            None => match text::stripped(key, "openai:oauth:"@) {
                Some(label) => "OpenAI (ChatGPT) ["@ + label + "]"@,
                None => match known_name(key, names) {
                    Some(name) => name,
                    None => title(key),
                },
            },
        },
    }
}

/// Human-facing name of a ledger source key.
pub fn display_name_for_source_key(
    source_key: &str,
    profiles: &Vec<Profile>,
    names: &VendorNames,
) -> (r: String)
    ensures
        r@ == shown_key(source_key@, model::seq_view(profiles@), names@),
{
    if let Some(id) = text::strip_prefix(source_key, "openai-compatible:") {
        return match providers::profile_by_id(profiles, id) {
            Some(profile) => text::join2(profile.display_name.as_str(), " (API key)"),
            None => text::join2(id, " (API key)"),
        };
    }
    let login = names.login_prefix();
    if let Some(label) = text::strip_prefix(source_key, login.as_str()) {
        return text::join5("Anthropic (", names.title.as_str(), ") [", label, "]");
    }
    if let Some(label) = text::strip_prefix(source_key, "openai:oauth:") {
        return text::join3("OpenAI (ChatGPT) [", label, "]");
    }
    match table_name(source_key, names) {
        Some(name) => text::owned(name),
        None => title_of(source_key),
    }
}

/// How long ago something was, in words.
pub open spec fn age_words(secs: nat) -> Seq<char> {
    if secs < 60 {
        "just now"@
    } else if secs < 3_600 {
        text::decimal(secs / 60) + "m ago"@
    } else if secs < 86_400 {
        let minutes = (secs % 3_600) / 60;
        if minutes > 0 {
            text::decimal(secs / 3_600) + "h "@ + text::decimal(minutes) + "m ago"@
        } else {
            text::decimal(secs / 3_600) + "h ago"@
        }
    } else {
        text::decimal(secs / 86_400) + "d ago"@
    }
}

/// The age of something at `unix_secs`, seen from `now`; what lies ahead is just
/// now.
pub fn format_relative_age(now: u64, unix_secs: u64) -> (r: String)
    ensures
        r@ == age_words(
            if now >= unix_secs {
                (now - unix_secs) as nat
            } else {
                0
            },
        ),
{
    let secs: u64 = if now >= unix_secs {
        now - unix_secs
    } else {
        0
    };
    if secs < 60 {
        text::owned("just now")
    } else if secs < 3_600 {
        let minutes = text::decimal_text((secs / 60) as u128);
        text::join2(minutes.as_str(), "m ago")
    } else if secs < 86_400 {
        let hours = text::decimal_text((secs / 3_600) as u128);
        let minutes: u64 = (secs % 3_600) / 60;
        if minutes > 0 {
            let m = text::decimal_text(minutes as u128);
            text::join4(hours.as_str(), "h ", m.as_str(), "m ago")
        } else {
            text::join2(hours.as_str(), "h ago")
        }
    } else {
        let days = text::decimal_text((secs / 86_400) as u128);
        text::join2(days.as_str(), "d ago")
    }
}

/// Whether `pattern` occurs in `s`.
pub open spec fn holds(s: Seq<char>, pattern: Seq<char>) -> bool {
    exists|at: int| text::occurs_at(s, pattern, at)
}

/// An ASCII letter or digit.
pub open spec fn alphanumeric(c: char) -> bool {
    ('a' <= c && c <= 'z') || ('A' <= c && c <= 'Z') || ('0' <= c && c <= '9')
}

/// A text with everything but ASCII letters and digits turned into dashes.
pub open spec fn dashed(s: Seq<char>) -> Seq<char> {
    s.map_values(
        |c: char|
            if alphanumeric(c) {
                c
            } else {
                '-'
            },
    )
}

/// The slug of a name: its letters and digits with single dashes between them.
pub open spec fn slug(name: Seq<char>) -> Seq<char> {
    let s = joined(parts(dashed(name)), "-"@);
    if s.len() == 0 {
        "unknown"@
    } else {
        s
    }
}

fn slug_of(name: &str) -> (r: String)
    ensures
        r@ == slug(name@),
{
    let letters = text::chars_of(name);
    let mut out: Vec<char> = Vec::new();
    let mut i: usize = 0;
    while i < letters.len()
        invariant
            i <= letters@.len(),
            letters@ == name@,
            out@.len() == i,
            forall|k: int| 0 <= k < i ==> #[trigger] out@[k] == dashed(name@)[k],
        decreases letters.len() - i,
    {
        let c = letters[i];
        let plain = ('a' <= c && c <= 'z') || ('A' <= c && c <= 'Z') || ('0' <= c && c <= '9');
        out.push(
            if plain {
                c
            } else {
                '-'
            },
        );
        i += 1;
    }
    assert(out@ =~= dashed(name@));
    let pieces = split_dashes(&out);
    let joint = join(&pieces, "-");
    let joint_letters = text::chars_of(joint.as_str());
    if joint_letters.len() == 0 {
        text::owned("unknown")
    } else {
        joint
    }
}

/// The index of the first profile from `from` on that a label in small letters
/// names, by its id or by its display name.
pub open spec fn labelled_profile(profiles: Seq<ProfileView>, label: Seq<char>, from: int) -> Option<
    int,
>
    decreases profiles.len() - from,
{
    if from < 0 || from >= profiles.len() {
        None
    } else if label == profiles[from].id || label == text::lowered(profiles[from].display_name) {
        Some(from)
    } else {
        labelled_profile(profiles, label, from + 1)
    }
}

/// The ledger key of a label in small letters that no profile has.
pub open spec fn key_by_words(label: Seq<char>, names: NamesView) -> Seq<char> {
    if holds(label, "azure"@) {
        "azure-openai"@
    } else if holds(label, "bedrock"@) {
        "bedrock"@
    } else if holds(label, "anthropic"@) || holds(label, names.key) {
        names.api_key()
    } else if holds(label, "openai"@) {
        "openai:api-key"@
    } else if holds(label, "copilot"@) {
        "copilot"@
    } else if holds(label, "gemini"@) {
        "gemini"@
    } else if holds(label, "cursor"@) {
        "cursor"@
    } else {
        slug(label)
    }
}

fn key_from_words(label: &str, names: &VendorNames) -> (r: String)
    ensures
        r@ == key_by_words(label@, names@),
{
    if text::contains_text(label, "azure") {
        text::owned("azure-openai")
    } else if text::contains_text(label, "bedrock") {
        text::owned("bedrock")
    } else if text::contains_text(label, "anthropic") || text::contains_text(
        label,
        names.key.as_str(),
    ) {
        names.api_key()
    } else if text::contains_text(label, "openai") {
        text::owned("openai:api-key")
    } else if text::contains_text(label, "copilot") {
        text::owned("copilot")
    } else if text::contains_text(label, "gemini") {
        text::owned("gemini")
    } else if text::contains_text(label, "cursor") {
        text::owned("cursor")
    } else {
        slug_of(label)
    }
}

/// The direct profile that the runtime key names on a route of OpenRouter.
pub open spec fn runtime_profile(runtime: Option<Seq<char>>, profiles: Seq<ProfileView>) -> Option<
    Seq<char>,
> {
    match runtime {
        Some(raw) => {
            let key = text::lowered(text::trimmed(raw));
            if key.len() > 0 && key != "openrouter"@ && providers::profile_from(profiles, key, 0) is Some {
                Some(key)
            } else {
                None
            }
        },
        None => None,
    }
}

/// The ledger key that a provider's label stands for.
pub open spec fn label_key(
    label: Seq<char>,
    runtime: Option<Seq<char>>,
    profiles: Seq<ProfileView>,
    names: NamesView,
) -> Seq<char> {
    let name = text::lowered(text::trimmed(label));
    if holds(name, "openrouter"@) {
        match runtime_profile(runtime, profiles) {
            Some(key) => "openai-compatible:"@ + key,
            None => "openrouter"@,
        }
    } else {
        match labelled_profile(profiles, name, 0) {
            Some(i) => "openai-compatible:"@ + profiles[i].id,
            None => key_by_words(name, names),
        }
    }
}

/// Map a human-facing provider label, plus the runtime provider key where there
/// is one, onto a ledger source key.
pub fn source_key_for_provider_label(
    label: &str,
    runtime_provider: Option<&str>,
    profiles: &Vec<Profile>,
    names: &VendorNames,
) -> (r: String)
    ensures
        r@ == label_key(
            label@,
            match runtime_provider {
                Some(key) => Some(key@),
                None => None,
            },
            model::seq_view(profiles@),
            names@,
        ),
{
    let ghost all = model::seq_view(profiles@);
    let name = text::to_lower(text::trim(label));
    if text::contains_text(name.as_str(), "openrouter") {
        if let Some(raw) = runtime_provider {
            let key = text::to_lower(text::trim(raw));
            let letters = text::chars_of(key.as_str());
            if letters.len() > 0 && !text::same(key.as_str(), "openrouter")
                && providers::profile_by_id(profiles, key.as_str()).is_some() {
                return text::join2("openai-compatible:", key.as_str());
            }
        }
        return text::owned("openrouter");
    }
    let mut i: usize = 0;
    while i < profiles.len()
        invariant
            i <= profiles@.len(),
            all == model::seq_view(profiles@),
            name@ == text::lowered(text::trimmed(label@)),
            !holds(name@, "openrouter"@),
            labelled_profile(all, name@, 0) == labelled_profile(all, name@, i as int),
        decreases profiles.len() - i,
    {
        assert(all[i as int] == profiles@[i as int]@);
        let display = text::to_lower(profiles[i].display_name.as_str());
        if text::same(name.as_str(), profiles[i].id.as_str()) || text::same(
            name.as_str(),
            display.as_str(),
        ) {
            return text::join2("openai-compatible:", profiles[i].id.as_str());
        }
        i += 1;
    }
    key_from_words(name.as_str(), names)
}

/// A label that differs from another in its case and the white space around it
/// stands for the same key.
pub proof fn label_case_does_not_matter(
    one: Seq<char>,
    other: Seq<char>,
    runtime: Option<Seq<char>>,
    profiles: Seq<ProfileView>,
    names: NamesView,
)
    requires
        text::lowered(text::trimmed(one)) == text::lowered(text::trimmed(other)),
    ensures
        label_key(one, runtime, profiles, names) == label_key(other, runtime, profiles, names),
{
}

/// What has no part lies between no letters: a text of dashes alone has the
/// slug `unknown`, and no slug is empty.
pub proof fn slug_is_never_empty(name: Seq<char>)
    ensures
        slug(name).len() > 0,
{
    reveal_strlit("unknown");
}

proof fn lemma_first_index_of(front: Seq<char>, c: char, back: Seq<char>)
    requires
        !front.contains(c),
    ensures
        text::first_index(front + seq![c] + back, c) == front.len(),
        text::first_index(front, c) == front.len(),
{
    let s = front + seq![c] + back;
    text::lemma_first_index(s, c);
    text::lemma_first_index(front, c);
    assert(s[front.len() as int] == c);
    let at = text::first_index(s, c);
    if at < front.len() {
        assert(s[at] == front[at]);
    }
}

/// A text without dashes is one part, an empty text none, and a dash parts what
/// stands before it from what stands behind it.
pub proof fn dashes_part_a_text(a: Seq<char>, b: Seq<char>)
    ensures
        a.len() == 0 ==> parts(a).len() == 0,
        a.len() > 0 && !a.contains('-') ==> parts(a) == seq![a],
        parts(a + seq!['-'] + b) == parts(a) + parts(b),
    decreases a.len(),
{
    let s = a + seq!['-'] + b;
    text::lemma_first_index(a, '-');
    let i = text::first_index(a, '-');
    if i == a.len() {
        lemma_first_index_of(a, '-', b);
        assert(s.skip(i + 1) =~= b);
        assert(s.take(i) =~= a);
        assert(a.take(i) =~= a);
        assert(parts(a) + parts(b) =~= if i == 0 {
            parts(b)
        } else {
            seq![a] + parts(b)
        });
        if a.len() > 0 {
            assert(parts(a) =~= seq![a]);
        }
    } else {
        let front = a.take(i);
        let rest = a.skip(i + 1);
        assert(!front.contains('-'));
        assert(a =~= front + seq!['-'] + rest);
        assert(s =~= front + seq!['-'] + (rest + seq!['-'] + b));
        lemma_first_index_of(front, '-', rest + seq!['-'] + b);
        assert(s.skip(i + 1) =~= rest + seq!['-'] + b);
        assert(s.take(i) =~= front);
        dashes_part_a_text(rest, b);
        assert(a.contains('-'));
        assert(parts(a) + parts(b) =~= parts(s));
    }
}

/// Texts are joined in their order, with the separator between any two of them
/// and nowhere else.
pub proof fn joining_puts_the_separator_between(
    a: Seq<Seq<char>>,
    b: Seq<Seq<char>>,
    separator: Seq<char>,
)
    ensures
        joined(Seq::empty(), separator).len() == 0,
        a.len() == 1 ==> joined(a, separator) == a[0],
        a.len() > 0 && b.len() > 0 ==> joined(a + b, separator) == joined(a, separator) + separator
            + joined(b, separator),
    decreases b.len(),
{
    if a.len() > 0 && b.len() > 0 {
        let s = a + b;
        assert(s.drop_last() =~= a + b.drop_last());
        assert(s.last() == b.last());
        if b.len() > 1 {
            joining_puts_the_separator_between(a, b.drop_last(), separator);
            assert(joined(a, separator) + separator + joined(b.drop_last(), separator) + separator
                + b.last() =~= joined(a, separator) + separator + joined(b, separator));
        } else {
            assert(b.drop_last() =~= Seq::empty());
            assert(s.drop_last() =~= a);
        }
    }
}

/// Only the first character of a word changes: a small Roman letter becomes
/// the capital, another ASCII character stays.
pub proof fn capital_stands_first_only(first: char, rest: Seq<char>)
    requires
        (first as u32) < 128,
    ensures
        ({
            let word = seq![first] + rest;
            let after = capitalized(word);
            &&& after.len() == word.len()
            &&& after.skip(1) == rest
            &&& 'a' <= first && first <= 'z' ==> after[0] as u32 + 32 == first as u32
            &&& !('a' <= first && first <= 'z') ==> after[0] == first
            &&& capitalized(Seq::empty()).len() == 0
        }),
{
    let word = seq![first] + rest;
    assert(word.skip(1) =~= rest);
    assert(capitalized(word).skip(1) =~= rest);
}

/// A title is the words between the dashes, each with a capital, with a space
/// between any two.
pub proof fn title_is_the_words_with_capitals(word: Seq<char>, a: Seq<char>, b: Seq<char>)
    ensures
        word.len() > 0 && !word.contains('-') ==> title(word) == capitalized(word),
        parts(a).len() > 0 && parts(b).len() > 0 ==> title(a + seq!['-'] + b) == title(a) + " "@
            + title(b),
        parts(b).len() == 0 ==> title(a + seq!['-'] + b) == title(a),
{
    let f = |part: Seq<char>| capitalized(part);
    dashes_part_a_text(word, Seq::empty());
    if word.len() > 0 && !word.contains('-') {
        assert(parts(word).map_values(f) =~= seq![capitalized(word)]);
    }
    dashes_part_a_text(a, b);
    assert((parts(a) + parts(b)).map_values(f) =~= parts(a).map_values(f) + parts(b).map_values(f));
    joining_puts_the_separator_between(parts(a).map_values(f), parts(b).map_values(f), " "@);
    if parts(b).len() == 0 {
        assert(parts(a) + parts(b) =~= parts(a));
    }
}

/// Each of the keys that have a name of their own is shown by that name.
pub proof fn known_keys_have_their_names(names: NamesView)
    ensures
        known_name(names.key + ":api-key"@, names) == Some("Anthropic API key"@),
        "openai:api-key"@ != names.api_key() ==> known_name("openai:api-key"@, names) == Some(
            "OpenAI API key"@,
        ),
        "openrouter"@ != names.api_key() ==> known_name("openrouter"@, names) == Some(
            "OpenRouter"@,
        ),
        "jcode"@ != names.api_key() ==> known_name("jcode"@, names) == Some(
            "Jcode subscription"@,
        ),
        "copilot"@ != names.api_key() ==> known_name("copilot"@, names) == Some(
            "GitHub Copilot"@,
        ),
        "gemini"@ != names.api_key() ==> known_name("gemini"@, names) == Some("Google Gemini"@),
        "cursor"@ != names.api_key() ==> known_name("cursor"@, names) == Some("Cursor"@),
        "bedrock"@ != names.api_key() ==> known_name("bedrock"@, names) == Some("AWS Bedrock"@),
        "antigravity"@ != names.api_key() ==> known_name("antigravity"@, names) == Some(
            "Antigravity"@,
        ),
        "azure-openai"@ != names.api_key() ==> known_name("azure-openai"@, names) == Some(
            "Azure OpenAI"@,
        ),
{
    reveal_strlit("openai:api-key");
    reveal_strlit("openrouter");
    reveal_strlit("jcode");
    reveal_strlit("copilot");
    reveal_strlit("gemini");
    reveal_strlit("cursor");
    reveal_strlit("bedrock");
    reveal_strlit("antigravity");
    reveal_strlit("azure-openai");
    assert("openai:api-key"@.len() == 14 && "openrouter"@.len() == 10 && "jcode"@.len() == 5);
    assert("copilot"@[0] == 'c' && "bedrock"@[0] == 'b');
    assert("gemini"@[0] == 'g' && "cursor"@[1] == 'u' && "copilot"@[1] == 'o');
    assert("cursor"@.len() == 6 && "gemini"@.len() == 6);
    assert("antigravity"@.len() == 11 && "azure-openai"@.len() == 12);
}

/// Every other key has no name of its own.
pub proof fn other_keys_have_no_name(key: Seq<char>, names: NamesView)
    requires
        key != names.key + ":api-key"@,
        key != "openai:api-key"@,
        key != "openrouter"@,
        key != "jcode"@,
        key != "copilot"@,
        key != "gemini"@,
        key != "cursor"@,
        key != "bedrock"@,
        key != "antigravity"@,
        key != "azure-openai"@,
    ensures
        known_name(key, names) is None,
{
}

/// A profile is shown by its display name, that of the first profile with its
/// id, and by its id where there is none.
pub proof fn profile_is_shown_by_its_name(
    id: Seq<char>,
    profiles: Seq<ProfileView>,
    names: NamesView,
    i: int,
)
    ensures
        0 <= i < profiles.len() && profiles[i].id == id && (forall|k: int|
            0 <= k < i ==> (#[trigger] profiles[k]).id != id) ==> shown_key(
            "openai-compatible:"@ + id,
            profiles,
            names,
        ) == profiles[i].display_name + " (API key)"@,
        (forall|k: int| 0 <= k < profiles.len() ==> (#[trigger] profiles[k]).id != id)
            ==> shown_key("openai-compatible:"@ + id, profiles, names) == id + " (API key)"@,
{
    text::parts_are_found_again("openai-compatible:"@, id);
    providers::first_profile_with_the_id_is_found(profiles, id, 0);
    if let Some(found) = providers::profile_from(profiles, id, 0) {
        if 0 <= i < profiles.len() && profiles[i].id == id && (forall|k: int|
            0 <= k < i ==> (#[trigger] profiles[k]).id != id) {
            assert(found == i) by {
                assert(profiles[found].id == id);
            }
        }
    }
}

/// A login is shown by its vendor and its label, a key with a name of its own
/// by that name, and any other key as a title.
pub proof fn other_keys_are_shown_by_vendor_name_or_title(
    key: Seq<char>,
    label: Seq<char>,
    profiles: Seq<ProfileView>,
    names: NamesView,
)
    requires
        !text::begins(key, "openai-compatible:"@),
    ensures
        key == names.key + ":oauth:"@ + label ==> shown_key(key, profiles, names) == "Anthropic ("@
            + names.title + ") ["@ + label + "]"@,
        key == "openai:oauth:"@ + label && !text::begins(key, names.key + ":oauth:"@) ==> shown_key(
            key,
            profiles,
            names,
        ) == "OpenAI (ChatGPT) ["@ + label + "]"@,
        !text::begins(key, "openai:oauth:"@) && !text::begins(key, names.key + ":oauth:"@) && known_name(
            key,
            names,
        ) is Some ==> shown_key(key, profiles, names) == known_name(key, names)->Some_0,
        !text::begins(key, "openai:oauth:"@) && !text::begins(key, names.key + ":oauth:"@) && known_name(
            key,
            names,
        ) is None ==> shown_key(key, profiles, names) == title(key),
{
    text::parts_are_found_again(names.key + ":oauth:"@, label);
    text::parts_are_found_again("openai:oauth:"@, label);
}

/// An age is told in its largest units: under a minute as now, under an hour in
/// minutes, under a day in hours and the minutes besides, and else in days.
pub proof fn age_is_told_in_its_largest_units(days: nat, hours: nat, minutes: nat, seconds: nat)
    requires
        hours < 24,
        minutes < 60,
        seconds < 60,
    ensures
        ({
            let words = age_words(86_400 * days + 3_600 * hours + 60 * minutes + seconds);
            &&& days == 0 && hours == 0 && minutes == 0 ==> words == "just now"@
            &&& days == 0 && hours == 0 && minutes > 0 ==> words == text::decimal(minutes)
                + "m ago"@
            &&& days == 0 && hours > 0 && minutes > 0 ==> words == text::decimal(hours) + "h "@
                + text::decimal(minutes) + "m ago"@
            &&& days == 0 && hours > 0 && minutes == 0 ==> words == text::decimal(hours) + "h ago"@
            &&& days > 0 ==> words == text::decimal(days) + "d ago"@
        }),
{
    let secs = 86_400 * days + 3_600 * hours + 60 * minutes + seconds;
    if days > 0 {
        assert(secs / 86_400 == days);
    } else if hours > 0 {
        assert(secs / 3_600 == hours);
        assert(secs % 3_600 == 60 * minutes + seconds);
        assert((secs % 3_600) / 60 == minutes);
    } else {
        assert(secs / 60 == minutes);
    }
}

/// A text holds what stands anywhere in it.
pub proof fn text_holds_what_stands_in_it(front: Seq<char>, pattern: Seq<char>, back: Seq<char>)
    ensures
        holds(front + pattern + back, pattern),
{
    let s = front + pattern + back;
    assert(s.subrange(front.len() as int, (front.len() + pattern.len()) as int) =~= pattern);
    assert(text::occurs_at(s, pattern, front.len() as int));
}

/// What a text holds stands somewhere in it.
pub proof fn held_text_stands_somewhere(s: Seq<char>, pattern: Seq<char>)
    requires
        holds(s, pattern),
    ensures
        exists|front: Seq<char>, back: Seq<char>| s == #[trigger] (front + pattern + back),
{
    let at = choose|at: int| text::occurs_at(s, pattern, at);
    let front = s.take(at);
    let back = s.skip(at + pattern.len());
    assert(s.subrange(at, at + pattern.len()) == pattern);
    assert(s =~= front + pattern + back);
}

/// A slug keeps the letters and digits of a name. Whatever stands between two
/// runs of them becomes one dash, and what stands at either end goes.
pub proof fn slug_has_one_dash_between_words(a: Seq<char>, c: char, b: Seq<char>)
    requires
        !('a' <= c && c <= 'z'),
        !('A' <= c && c <= 'Z'),
        !('0' <= c && c <= '9'),
    ensures
        a.len() > 0 && (forall|i: int|
            0 <= i < a.len() ==> ('a' <= (#[trigger] a[i]) && a[i] <= 'z') || ('A' <= a[i] && a[i]
                <= 'Z') || ('0' <= a[i] && a[i] <= '9')) ==> slug(a) == a,
        parts(dashed(a)).len() > 0 && parts(dashed(b)).len() > 0 ==> slug(a + seq![c] + b) == slug(
            a,
        ) + "-"@ + slug(b),
        parts(dashed(b)).len() == 0 ==> slug(a + seq![c] + b) == slug(a),
        parts(dashed(a)).len() == 0 ==> slug(a + seq![c] + b) == slug(b),
        parts(dashed(a)).len() == 0 ==> slug(a) == "unknown"@,
{
    if a.len() > 0 && (forall|i: int|
        0 <= i < a.len() ==> ('a' <= (#[trigger] a[i]) && a[i] <= 'z') || ('A' <= a[i] && a[i]
            <= 'Z') || ('0' <= a[i] && a[i] <= '9')) {
        assert(dashed(a) =~= a);
        dashes_part_a_text(a, b);
        assert(!a.contains('-'));
    }
    assert(dashed(a + seq![c] + b) =~= dashed(a) + seq!['-'] + dashed(b));
    dashes_part_a_text(dashed(a), dashed(b));
    joining_puts_the_separator_between(parts(dashed(a)), parts(dashed(b)), "-"@);
    if parts(dashed(b)).len() == 0 {
        assert(parts(dashed(a)) + parts(dashed(b)) =~= parts(dashed(a)));
    }
    if parts(dashed(a)).len() == 0 {
        assert(parts(dashed(a)) + parts(dashed(b)) =~= parts(dashed(b)));
        assert(parts(dashed(a)) =~= Seq::empty());
    }
    lemma_parts_not_empty(dashed(a));
    lemma_parts_not_empty(dashed(b));
    lemma_joined_not_empty(parts(dashed(a)), "-"@);
    lemma_joined_not_empty(parts(dashed(b)), "-"@);
    reveal_strlit("-");
}

proof fn lemma_parts_not_empty(s: Seq<char>)
    ensures
        forall|i: int| 0 <= i < parts(s).len() ==> (#[trigger] parts(s)[i]).len() > 0,
    decreases s.len(),
{
    text::lemma_first_index(s, '-');
    let i = text::first_index(s, '-');
    if s.len() > 0 {
        let rest = if i < s.len() {
            parts(s.skip(i + 1))
        } else {
            Seq::empty()
        };
        if i < s.len() {
            lemma_parts_not_empty(s.skip(i + 1));
        }
        if i > 0 {
            assert forall|k: int| 0 <= k < parts(s).len() implies (#[trigger] parts(s)[k]).len()
                > 0 by {
                if k > 0 {
                    assert(parts(s)[k] == rest[k - 1]);
                } else {
                    assert(parts(s)[0] == s.take(i));
                }
            }
        }
    }
}

proof fn lemma_joined_not_empty(texts: Seq<Seq<char>>, separator: Seq<char>)
    requires
        forall|i: int| 0 <= i < texts.len() ==> (#[trigger] texts[i]).len() > 0,
    ensures
        texts.len() > 0 ==> joined(texts, separator).len() > 0,
{
    if texts.len() > 0 {
        assert(texts[0].len() > 0);
        assert(texts.last() == texts[texts.len() - 1]);
    }
}

/// A label names the first profile that it is the id of, or the display name in
/// any case.
pub proof fn label_names_the_first_profile(
    profiles: Seq<ProfileView>,
    label: Seq<char>,
    from: int,
)
    requires
        0 <= from,
    ensures
        ({
            let named = |p: ProfileView| label == p.id || label == text::lowered(p.display_name);
            match labelled_profile(profiles, label, from) {
                Some(i) => from <= i < profiles.len() && named(profiles[i]) && forall|k: int|
                    from <= k < i ==> !named(#[trigger] profiles[k]),
                None => forall|k: int|
                    from <= k < profiles.len() ==> !named(#[trigger] profiles[k]),
            }
        }),
    decreases profiles.len() - from,
{
    if from < profiles.len() && label != profiles[from].id && label != text::lowered(
        profiles[from].display_name,
    ) {
        label_names_the_first_profile(profiles, label, from + 1);
    }
}

/// A label that names no profile is taken by the first vendor whose name it
/// holds: a cloud before the vendor whose models it serves, and a label that
/// holds none of the names by its own slug.
pub proof fn label_is_taken_by_the_vendor_it_holds(label: Seq<char>, names: NamesView)
    ensures
        ({
            let key = key_by_words(label, names);
            let cloud = holds(label, "azure"@) || holds(label, "bedrock"@);
            let vendor = holds(label, "anthropic"@) || holds(label, names.key) || holds(
                label,
                "openai"@,
            );
            &&& holds(label, "azure"@) ==> key == "azure-openai"@
            &&& holds(label, "bedrock"@) && !holds(label, "azure"@) ==> key == "bedrock"@
            &&& !cloud && (holds(label, "anthropic"@) || holds(label, names.key)) ==> key
                == names.key + ":api-key"@
            &&& !cloud && holds(label, "openai"@) && !holds(label, "anthropic"@) && !holds(
                label,
                names.key,
            ) ==> key == "openai:api-key"@
            &&& !cloud && !vendor && holds(label, "copilot"@) ==> key == "copilot"@
            &&& !cloud && !vendor && !holds(label, "copilot"@) && holds(label, "gemini"@) ==> key
                == "gemini"@
            &&& !cloud && !vendor && !holds(label, "copilot"@) && !holds(label, "gemini"@) && holds(
                label,
                "cursor"@,
            ) ==> key == "cursor"@
            &&& !cloud && !vendor && !holds(label, "copilot"@) && !holds(label, "gemini"@)
                && !holds(label, "cursor"@) ==> key == slug(label)
        }),
{
}

/// A label of the router's is the router's key, unless the runtime names one
/// of the profiles, which is then meant.
pub proof fn router_label_goes_by_the_runtime(
    label: Seq<char>,
    runtime: Option<Seq<char>>,
    profiles: Seq<ProfileView>,
    names: NamesView,
    i: int,
)
    requires
        holds(text::lowered(text::trimmed(label)), "openrouter"@),
    ensures
        runtime is None ==> label_key(label, runtime, profiles, names) == "openrouter"@,
        runtime matches Some(raw) ==> (text::lowered(text::trimmed(raw)) == "openrouter"@
            || text::trimmed(raw).len() == 0 || (forall|k: int|
            0 <= k < profiles.len() ==> (#[trigger] profiles[k]).id != text::lowered(
                text::trimmed(raw),
            ))) ==> label_key(label, runtime, profiles, names) == "openrouter"@,
        runtime matches Some(raw) ==> 0 <= i < profiles.len() && profiles[i].id == text::lowered(
            text::trimmed(raw),
        ) && text::trimmed(raw).len() > 0 && text::lowered(text::trimmed(raw)) != "openrouter"@
            ==> label_key(label, runtime, profiles, names) == "openai-compatible:"@
            + profiles[i].id,
{
    if let Some(raw) = runtime {
        let key = text::lowered(text::trimmed(raw));
        providers::first_profile_with_the_id_is_found(profiles, key, 0);
        assert(key.len() == text::trimmed(raw).len());
    }
}

/// A label that does not name the router names the profile that has it as its
/// id or display name, and else goes by the words in it, in small letters.
pub proof fn other_label_goes_by_profile_or_words(
    label: Seq<char>,
    runtime: Option<Seq<char>>,
    profiles: Seq<ProfileView>,
    names: NamesView,
    i: int,
)
    requires
        !holds(text::lowered(text::trimmed(label)), "openrouter"@),
    ensures
        ({
            let name = text::lowered(text::trimmed(label));
            let named = |p: ProfileView| name == p.id || name == text::lowered(p.display_name);
            &&& 0 <= i < profiles.len() && named(profiles[i]) && (forall|k: int|
                0 <= k < i ==> !named(#[trigger] profiles[k])) ==> label_key(
                label,
                runtime,
                profiles,
                names,
            ) == "openai-compatible:"@ + profiles[i].id
            &&& (forall|k: int| 0 <= k < profiles.len() ==> !named(#[trigger] profiles[k]))
                ==> label_key(label, runtime, profiles, names) == key_by_words(name, names)
        }),
{
    let name = text::lowered(text::trimmed(label));
    label_names_the_first_profile(profiles, name, 0);
    let named = |p: ProfileView| name == p.id || name == text::lowered(p.display_name);
    if let Some(found) = labelled_profile(profiles, name, 0) {
        assert(named(profiles[found]));
        if 0 <= i < profiles.len() && named(profiles[i]) && (forall|k: int|
            0 <= k < i ==> !named(#[trigger] profiles[k])) {
            assert(found == i);
        }
    }
}

} // verus!
