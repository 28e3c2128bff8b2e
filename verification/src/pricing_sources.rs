//! Validation of `[[pricing.sources]]`: where each sheet lives, under which id,
//! and in which order the sheets resolve.

use crate::config_types::{PricingSourceFile, PricingSourceFileView};
use crate::currency;
use crate::currency::Currency;
use crate::model;
use crate::order;
use crate::order::Ranked;
use crate::paths;
use crate::pricing_config;
use crate::rule_types::{ErrorView, PricingConfigError, PricingSource, SourceView};
use crate::text;
use vstd::prelude::*;

verus! {

/// What validation has to know of its surroundings.
#[derive(Debug, Clone)]
pub struct PricingEnv {
    /// The directory in which a bare file name resolves.
    pub cache_dir: String,
    /// The user's home directory, where it is known.
    pub home: Option<String>,
    /// The currency codes that draw no warning.
    pub known_currencies: Vec<String>,
}

#[verifier::ext_equal]
pub struct EnvView {
    pub cache_dir: Seq<char>,
    pub home: Option<Seq<char>>,
    pub known_currencies: Seq<Seq<char>>,
}

impl View for PricingEnv {
    type V = EnvView;

    open spec fn view(&self) -> EnvView {
        EnvView {
            cache_dir: self.cache_dir@,
            home: model::opt_view(self.home),
            known_currencies: model::seq_view(self.known_currencies@),
        }
    }
}

/// The warning that an unknown currency code draws; a known one draws none.
pub open spec fn currency_warnings(written: Seq<char>, path: Seq<char>, env: EnvView) -> Seq<
    Seq<char>,
> {
    let code = currency::normal_code(written);
    if env.known_currencies.contains(code) {
        Seq::empty()
    } else {
        seq![path + ": unrecognized currency code `"@ + code + "`; accepted as-is"@]
    }
}

/// Normalize a currency code, warning (not failing) on unknown codes.
pub fn parse_currency(
    written: &str,
    path: &str,
    env: &PricingEnv,
    warnings: &mut Vec<String>,
) -> (r: Currency)
    ensures
        r@ == currency::normal_code(written@),
        model::seq_view(final(warnings)@) == model::seq_view(old(warnings)@) + currency_warnings(
            written@,
            path@,
            env@,
        ),
{
    let currency = Currency::new(written);
    if !model::holds_text(&env.known_currencies, currency.as_str()) {
        let start = text::join3(path, ": unrecognized currency code `", currency.as_str());
        let warning = text::join2(start.as_str(), "`; accepted as-is");
        let ghost before = warnings@;
        warnings.push(warning);
        assert(model::seq_view(warnings@) =~= model::seq_view(before) + currency_warnings(
            written@,
            path@,
            env@,
        ));
    } else {
        assert(model::seq_view(warnings@) =~= model::seq_view(warnings@) + Seq::empty());
    }
    currency
}

/// The cache file that models.dev's catalog is kept in.
pub open spec fn catalog_file_name() -> Seq<char> {
    "models_dev_pricing.json"@
}

/// The cache file that price files are kept in.
pub open spec fn sources_file_name() -> Seq<char> {
    "pricing_sources.json"@
}

/// A name that belongs to the program's own files in the cache directory: the
/// two fixed ones, and the families `<namespace>_models.json`,
/// `<namespace>_endpoints_<model>.json` and
/// `session_search_<source>_index_v2.bin`.
pub open spec fn guarded(name: Seq<char>) -> bool {
    ||| name == catalog_file_name()
    ||| name == sources_file_name()
    ||| text::ends(name, "_models.json"@)
    ||| (text::ends(name, ".json"@) && exists|at: int| text::occurs_at(name, "_endpoints_"@, at))
    ||| (text::begins(name, "session_search_"@) && text::ends(name, "_index_v2.bin"@))
}

/// Whether a bare name is one of the program's own cache files.
pub fn is_guarded(name: &str) -> (r: bool)
    ensures
        r == guarded(name@),
{
    text::same(name, "models_dev_pricing.json") || text::same(name, "pricing_sources.json")
        || text::ends_with(name, "_models.json") || (text::ends_with(name, ".json")
        && text::contains_text(name, "_endpoints_")) || (text::starts_with(name, "session_search_")
        && text::ends_with(name, "_index_v2.bin"))
}

/// A bare file name: no separator, and not anchored at a home directory.
pub open spec fn bare(raw: Seq<char>) -> bool {
    raw.len() > 0 && !raw.contains('/') && !raw.contains('\\') && raw[0] != '~'
}

/// Whether `raw` is a bare file name.
pub fn is_bare_name(raw: &str) -> (r: bool)
    ensures
        r == bare(raw@),
{
    let x = text::chars_of(raw);
    x.len() > 0 && !text::has_char(raw, '/') && !text::has_char(raw, '\\') && x[0] != '~'
}

/// `path` with a leading `~` (alone, or before a separator) replaced by the
/// home directory.
pub open spec fn expanded(path: Seq<char>, home: Option<Seq<char>>) -> Seq<char> {
    match home {
        None => path,
        Some(home) => if path == "~"@ {
            home
        } else {
            match text::stripped(path, "~/"@) {
                Some(rest) => paths::joined(home, rest),
                None => path,
            }
        },
    }
}

/// Expand a leading `~` to the user's home directory. `~user` stays as it is.
pub fn expand_tilde(path: &str, home: &Option<String>) -> (r: String)
    ensures
        r@ == expanded(path@, model::opt_view(*home)),
{
    match home {
        None => text::owned(path),
        Some(home) => {
            if text::same(path, "~") {
                return home.clone();
            }
            match text::strip_prefix(path, "~/") {
                Some(rest) => paths::join_path(home.as_str(), rest),
                None => text::owned(path),
            }
        },
    }
}

/// Where the file that `raw` names lives, once it is known not to be empty.
pub open spec fn resolved(raw: Seq<char>, path: Seq<char>, env: EnvView) -> Result<
    Seq<char>,
    ErrorView,
> {
    if bare(raw) {
        if guarded(raw) {
            Err(
                pricing_config::failure(
                    path,
                    "`"@ + raw + "` is jcode's own file in "@ + env.cache_dir
                        + "; choose another name"@,
                ),
            )
        } else {
            Ok(paths::joined(env.cache_dir, raw))
        }
    } else {
        Ok(expanded(raw, env.home))
    }
}

/// Where the file that `raw` names lives, where an empty name draws `empty`.
pub open spec fn location_of(raw: Seq<char>, path: Seq<char>, empty: Seq<char>, env: EnvView) -> Result<
    Seq<char>,
    ErrorView,
> {
    if text::trimmed(raw).len() == 0 {
        Err(pricing_config::failure(path, empty))
    } else {
        resolved(text::trimmed(raw), path, env)
    }
}

/// Turn a `file` value into the local path it names: a bare name resolves in
/// the cache directory, everything else is a path as it is written.
pub fn parse_location(raw: &str, path: &str, empty: &str, env: &PricingEnv) -> (r: Result<
    String,
    PricingConfigError,
>)
    ensures
        pricing_config::outcome(r) == location_of(raw@, path@, empty@, env@),
{
    let raw = text::trim(raw);
    if raw.is_empty() {
        return Err(PricingConfigError::new(path, empty));
    }
    if is_bare_name(raw) {
        if is_guarded(raw) {
            let start = text::join3("`", raw, "` is jcode's own file in ");
            let message = text::join3(
                start.as_str(),
                env.cache_dir.as_str(),
                "; choose another name",
            );
            return Err(PricingConfigError::new(path, message.as_str()));
        }
        return Ok(paths::join_path(env.cache_dir.as_str(), raw));
    }
    Ok(expand_tilde(raw, &env.home))
}

/// What a source without a file is told.
pub open spec fn no_file() -> Seq<char> {
    "a pricing source needs a `file` naming a local price sheet"@
}

/// The file of a `[[pricing.sources]]` entry.
pub open spec fn source_location(raw: Seq<char>, path: Seq<char>, env: EnvView) -> Result<
    Seq<char>,
    ErrorView,
> {
    location_of(raw, path, no_file(), env)
}

pub fn parse_source_location(raw: &str, path: &str, env: &PricingEnv) -> (r: Result<
    String,
    PricingConfigError,
>)
    ensures
        pricing_config::outcome(r) == source_location(raw@, path@, env@),
{
    parse_location(raw, path, "a pricing source needs a `file` naming a local price sheet", env)
}

/// The id for the `index`th source when it does not name one: the stem of its
/// file, or its number where the file has none.
pub open spec fn derived_id(path: Seq<char>, index: int) -> Seq<char> {
    match paths::file_stem(path) {
        Some(stem) => if text::trimmed(stem).len() == 0 {
            "source"@ + text::decimal((index + 1) as nat)
        } else {
            text::trimmed(stem)
        },
        None => "source"@ + text::decimal((index + 1) as nat),
    }
}

pub fn derive_source_id(path: &str, index: usize) -> (r: String)
    ensures
        r@ == derived_id(path@, index as int),
{
    if let Some(stem) = paths::path_stem(path) {
        let trimmed = text::trim(stem.as_str());
        if !trimmed.is_empty() {
            return text::owned(trimmed);
        }
    }
    let number = text::decimal_text(index as u128 + 1);
    text::join2("source", number.as_str())
}

/// `base` with a number behind it.
pub open spec fn numbered(base: Seq<char>, n: nat) -> Seq<char> {
    base + "-"@ + text::decimal(n)
}

/// `n` is the first number from 2 on with which `base` is not used.
pub open spec fn first_free(base: Seq<char>, used: Set<Seq<char>>, n: nat) -> bool {
    &&& n >= 2
    &&& !used.contains(numbered(base, n))
    &&& forall|m: nat| 2 <= m < n ==> used.contains(#[trigger] numbered(base, m))
}

/// `base`, or where that is used already, `base` with the first free number.
pub open spec fn unique_id(base: Seq<char>, used: Set<Seq<char>>) -> Seq<char> {
    if !used.contains(base) {
        base
    } else {
        numbered(base, choose|n: nat| first_free(base, used, n))
    }
}

/// The texts of a list as a set.
pub open spec fn names_in(names: Seq<Seq<char>>) -> Set<Seq<char>> {
    Set::new(|s: Seq<char>| names.contains(s))
}

/// Two numbers that are both the first free one are the same.
pub proof fn lemma_first_free_unique(base: Seq<char>, used: Set<Seq<char>>, m: nat, n: nat)
    requires
        first_free(base, used, m),
        first_free(base, used, n),
    ensures
        m == n,
{
    if m < n {
        assert(used.contains(numbered(base, m)));
    } else if n < m {
        assert(used.contains(numbered(base, n)));
    }
}

proof fn lemma_numbered_injective(base: Seq<char>, m: nat, n: nat)
    requires
        numbered(base, m) == numbered(base, n),
    ensures
        m == n,
{
    let head = base + "-"@;
    assert(numbered(base, m).skip(head.len() as int) =~= text::decimal(m));
    assert(numbered(base, n).skip(head.len() as int) =~= text::decimal(n));
    text::lemma_decimal_injective(m, n);
}

/// A list uses at most as many numbered names as it is long.
proof fn lemma_some_number_is_free(base: Seq<char>, names: Seq<Seq<char>>, n: nat)
    requires
        n >= 2,
        forall|m: nat| 2 <= m < n ==> names.contains(#[trigger] numbered(base, m)),
    ensures
        n - 2 <= names.len(),
{
    let tried = Seq::new((n - 2) as nat, |i: int| numbered(base, (i + 2) as nat));
    assert forall|i: int, j: int|
        0 <= i < tried.len() && 0 <= j < tried.len() && i != j implies tried[i] != tried[j] by {
        if tried[i] == tried[j] {
            lemma_numbered_injective(base, (i + 2) as nat, (j + 2) as nat);
        }
    }
    assert(tried.no_duplicates());
    tried.unique_seq_to_set();
    names.lemma_cardinality_of_set();
    assert forall|s: Seq<char>| tried.to_set().contains(s) implies names.to_set().contains(s) by {
        let i = choose|i: int| 0 <= i < tried.len() && tried[i] == s;
        assert(names.contains(numbered(base, (i + 2) as nat)));
    }
    vstd::set_lib::lemma_len_subset(tried.to_set(), names.to_set());
}

/// [`derived_id`], made different from everything that is in use.
pub fn unique_derived_id(path: &str, index: usize, used: &Vec<String>) -> (r: String)
    ensures
        r@ == unique_id(
            derived_id(path@, index as int),
            names_in(model::seq_view(used@)),
        ),
{
    let base = derive_source_id(path, index);
    let ghost taken = names_in(model::seq_view(used@));
    if !model::holds_text(used, base.as_str()) {
        return base;
    }
    let n: usize = used.len();
    let mut suffix: u128 = 2;
    loop
        invariant
            n == used@.len(),
            2 <= suffix <= n + 2,
            base@ == derived_id(path@, index as int),
            taken == names_in(model::seq_view(used@)),
            taken.contains(base@),
            forall|m: nat| 2 <= m < suffix ==> taken.contains(#[trigger] numbered(base@, m)),
        decreases used@.len() + 3 - suffix,
    {
        let number = text::decimal_text(suffix);
        let candidate = text::join3(base.as_str(), "-", number.as_str());
        if !model::holds_text(used, candidate.as_str()) {
            proof {
                assert(first_free(base@, taken, suffix as nat));
                let n = choose|n: nat| first_free(base@, taken, n);
                lemma_first_free_unique(base@, taken, n, suffix as nat);
            }
            return candidate;
        }
        proof {
            assert(taken.contains(numbered(base@, suffix as nat)));
            assert forall|m: nat| 2 <= m < suffix + 1 implies model::seq_view(used@).contains(
                #[trigger] numbered(base@, m),
            ) by {
                assert(taken.contains(numbered(base@, m)));
            }
            lemma_some_number_is_free(base@, model::seq_view(used@), (suffix + 1) as nat);
        }
        suffix = suffix + 1;
    }
}

/// The only sheet schema.
pub open spec fn sheet_format() -> Seq<char> {
    "models_dev_v1"@
}

/// One entry of a list that has no blank entries.
pub open spec fn entry_step(path: Seq<char>, blank: Seq<char>) -> spec_fn(int, Seq<char>) -> Result<
    Seq<char>,
    ErrorView,
> {
    |i: int, raw: Seq<char>|
        if text::trimmed(raw).len() == 0 {
            Err(pricing_config::failure(pricing_config::at_index(path, i), blank))
        } else {
            Ok(text::trimmed(raw))
        }
}

fn trim_entries(values: &Vec<String>, path: &str, blank: &str) -> (r: Result<
    Vec<String>,
    PricingConfigError,
>)
    ensures
        match r {
            Ok(v) => model::collect(model::seq_view(values@), entry_step(path@, blank@)) == Ok::<
                Seq<Seq<char>>,
                ErrorView,
            >(model::seq_view(v@)),
            Err(e) => model::collect(model::seq_view(values@), entry_step(path@, blank@)) == Err::<
                Seq<Seq<char>>,
                ErrorView,
            >(e@),
        },
{
    let ghost s = model::seq_view(values@);
    let ghost f = entry_step(path@, blank@);
    let mut out: Vec<String> = Vec::new();
    assert(model::seq_view(out@) =~= Seq::empty());
    let mut i: usize = 0;
    while i < values.len()
        invariant
            i <= values@.len(),
            s == model::seq_view(values@),
            f == entry_step(path@, blank@),
            model::collect(s.take(i as int), f) == Ok::<Seq<Seq<char>>, ErrorView>(
                model::seq_view(out@),
            ),
        decreases values.len() - i,
    {
        proof {
            model::lemma_collect_step(s, f, i as int);
        }
        let entry = text::trim(values[i].as_str());
        if entry.is_empty() {
            let number = text::decimal_text(i as u128);
            let at = text::join4(path, "[", number.as_str(), "]");
            proof {
                model::lemma_collect_fails(s, f, i + 1);
            }
            return Err(PricingConfigError::new(at.as_str(), blank));
        }
        let ghost before = out@;
        out.push(text::owned(entry));
        assert(model::seq_view(out@) =~= model::seq_view(before).push(entry@));
        i += 1;
    }
    assert(s.take(i as int) =~= s);
    Ok(out)
}

/// The config path of the `index`th source.
pub open spec fn source_path(index: int) -> Seq<char> {
    pricing_config::at_index("pricing.sources"@, index)
}

/// Whether the `index`th source names the id `id` itself.
pub open spec fn names_id(sources: Seq<PricingSourceFileView>, index: int, id: Seq<char>) -> bool {
    sources[index].id is Some && text::trimmed(sources[index].id->Some_0) == id
}

/// The id that a source names itself: not blank, and not that of an earlier
/// source.
pub open spec fn explicit_id(sources: Seq<PricingSourceFileView>, index: int) -> Result<
    Option<Seq<char>>,
    ErrorView,
> {
    match sources[index].id {
        None => Ok(None),
        Some(raw) => {
            let id = text::trimmed(raw);
            if id.len() == 0 {
                Err(
                    pricing_config::failure(
                        source_path(index) + ".id"@,
                        "a pricing source `id` must not be empty; omit it to derive one from the location, or write a non-empty name"@,
                    ),
                )
            } else if exists|j: int| 0 <= j < index && #[trigger] names_id(sources, j, id) {
                Err(
                    pricing_config::failure(
                        source_path(index) + ".id"@,
                        "duplicate source id `"@ + id + "`; source ids must be unique"@,
                    ),
                )
            } else {
                Ok(Some(id))
            }
        },
    }
}

pub open spec fn explicit_step(sources: Seq<PricingSourceFileView>) -> spec_fn(
    int,
    PricingSourceFileView,
) -> Result<Option<Seq<char>>, ErrorView> {
    |i: int, source: PricingSourceFileView| explicit_id(sources, i)
}

/// The ids that are not free for a source: those that some source names itself,
/// and those given so far.
pub open spec fn taken_ids(sources: Seq<PricingSourceFileView>, given: Seq<Seq<char>>) -> Set<
    Seq<char>,
> {
    Set::new(
        |s: Seq<char>|
            (exists|j: int| 0 <= j < sources.len() && #[trigger] names_id(sources, j, s))
                || given.contains(s),
    )
}

/// Where a source lives; an empty text where its file is not valid.
pub open spec fn place_of(sources: Seq<PricingSourceFileView>, index: int, env: EnvView) -> Seq<
    char,
> {
    match source_location(sources[index].file, source_path(index) + ".file"@, env) {
        Ok(path) => path,
        Err(_) => Seq::empty(),
    }
}

/// The id of the `index`th source, where the earlier ones have the ids `given`.
pub open spec fn id_of(
    sources: Seq<PricingSourceFileView>,
    index: int,
    given: Seq<Seq<char>>,
    env: EnvView,
) -> Seq<char> {
    match sources[index].id {
        Some(raw) => text::trimmed(raw),
        None => unique_id(
            derived_id(place_of(sources, index, env), index),
            taken_ids(sources, given),
        ),
    }
}

/// The ids of the first `n` sources.
pub open spec fn source_ids(sources: Seq<PricingSourceFileView>, n: int, env: EnvView) -> Seq<
    Seq<char>,
>
    decreases n,
{
    if n <= 0 {
        Seq::empty()
    } else {
        let given = source_ids(sources, n - 1, env);
        given.push(id_of(sources, n - 1, given, env))
    }
}

/// A sheet schema that is known, or left out.
pub open spec fn format_known(format: Option<Seq<char>>) -> bool {
    match format {
        None => true,
        Some(raw) => text::trimmed(raw).len() == 0 || text::trimmed(raw) == sheet_format(),
    }
}

/// The currency that an entry states, which is USD where it states none.
pub open spec fn stated_currency(written: Option<Seq<char>>) -> Seq<char> {
    match written {
        Some(code) => code,
        None => "USD"@,
    }
}

/// The `index`th source: its file, scope, globs and format are valid.
pub open spec fn source_of(sources: Seq<PricingSourceFileView>, index: int, env: EnvView) -> Result<
    SourceView,
    ErrorView,
> {
    let source = sources[index];
    let at = source_path(index);
    match source_location(source.file, at + ".file"@, env) {
        Err(e) => Err(e),
        Ok(path) => match model::collect(
            source.scope,
            entry_step(
                at + ".scope"@,
                "a scope entry must name a provider or profile; omit `scope` to cover every provider"@,
            ),
        ) {
            Err(e) => Err(e),
            Ok(scope) => match model::collect(
                source.models,
                entry_step(
                    at + ".models"@,
                    "a model glob must not be empty; omit `models` to cover every model"@,
                ),
            ) {
                Err(e) => Err(e),
                Ok(models) => if !format_known(source.format) {
                    Err(
                        pricing_config::failure(
                            at + ".format"@,
                            "unknown source format `"@ + text::trimmed(source.format->Some_0)
                                + "`; only `models_dev_v1` is supported"@,
                        ),
                    )
                } else {
                    Ok(
                        SourceView {
                            id: id_of(sources, index, source_ids(sources, index, env), env),
                            path,
                            scope,
                            models,
                            priority: match source.priority {
                                Some(p) => p,
                                None => 0,
                            },
                            currency: currency::normal_code(stated_currency(source.currency)),
                        },
                    )
                },
            },
        },
    }
}

pub open spec fn source_step(sources: Seq<PricingSourceFileView>, env: EnvView) -> spec_fn(
    int,
    PricingSourceFileView,
) -> Result<SourceView, ErrorView> {
    |i: int, source: PricingSourceFileView| source_of(sources, i, env)
}

/// The validated sources in declaration order.
pub open spec fn sources_of(sources: Seq<PricingSourceFileView>, env: EnvView) -> Result<
    Seq<SourceView>,
    ErrorView,
> {
    match model::collect(sources, explicit_step(sources)) {
        Err(e) => Err(e),
        Ok(_) => model::collect(sources, source_step(sources, env)),
    }
}

/// The warnings that the currencies of the first `n` sources draw.
pub open spec fn source_warnings(sources: Seq<PricingSourceFileView>, n: int, env: EnvView) -> Seq<
    Seq<char>,
>
    decreases n,
{
    if n <= 0 {
        Seq::empty()
    } else {
        source_warnings(sources, n - 1, env) + currency_warnings(
            stated_currency(sources[n - 1].currency),
            source_path(n - 1) + ".currency"@,
            env,
        )
    }
}

/// Whether a source comes before another in resolution order: by priority, and
/// by id where the priorities are equal.
pub open spec fn resolves_before(a: SourceView, b: SourceView) -> bool {
    a.priority < b.priority || (a.priority == b.priority && text::before(a.id, b.id))
}

/// No later source resolves before an earlier one.
pub open spec fn in_resolution_order(sources: Seq<SourceView>) -> bool {
    order::in_order::<PricingSource>(sources)
}

impl Ranked for PricingSource {
    open spec fn precedes(a: SourceView, b: SourceView) -> bool {
        resolves_before(a, b)
    }

    proof fn lemma_one_way(a: SourceView, b: SourceView) {
        if a.priority == b.priority && text::before(b.id, a.id) {
            text::lemma_before_transitive(a.id, b.id, a.id);
            text::lemma_before_irreflexive(a.id);
        }
    }

    proof fn lemma_carries_over(a: SourceView, b: SourceView, c: SourceView) {
        if resolves_before(c, a) && c.priority == a.priority {
            order::lemma_text_carries_over(a.id, b.id, c.id);
        }
    }

    fn goes_before(&self, other: &Self) -> (r: bool) {
        self.priority < other.priority || (self.priority == other.priority && text::comes_before(
            self.id.as_str(),
            other.id.as_str(),
        ))
    }
}

/// Put the sources in resolution order.
pub fn sort_sources(sources: Vec<PricingSource>) -> (r: Vec<PricingSource>)
    ensures
        in_resolution_order(model::seq_view(r@)),
        model::seq_view(r@).to_multiset() == model::seq_view(sources@).to_multiset(),
{
    order::sorted(sources)
}

fn check_explicit_ids(sources: &Vec<PricingSourceFile>) -> (r: Result<
    Vec<String>,
    PricingConfigError,
>)
    ensures
        ({
            let all = model::seq_view(sources@);
            match r {
                Ok(v) => {
                    &&& model::collect(all, explicit_step(all)) is Ok
                    &&& names_in(model::seq_view(v@)) == taken_ids(all, Seq::empty())
                },
                Err(e) => model::collect(all, explicit_step(all)) == Err::<
                    Seq<Option<Seq<char>>>,
                    ErrorView,
                >(e@),
            }
        }),
{
    let ghost s = model::seq_view(sources@);
    let ghost f = explicit_step(s);
    let mut reserved: Vec<String> = Vec::new();
    let mut i: usize = 0;
    while i < sources.len()
        invariant
            i <= sources@.len(),
            s == model::seq_view(sources@),
            f == explicit_step(s),
            forall|id: Seq<char>|
                model::seq_view(reserved@).contains(id) <==> exists|j: int|
                    0 <= j < i && #[trigger] names_id(s, j, id),
            model::collect(s.take(i as int), f) is Ok,
        decreases sources.len() - i,
    {
        proof {
            model::lemma_collect_step(s, f, i as int);
            assert(f(i as int, s[i as int]) == explicit_id(s, i as int));
            if f(i as int, s[i as int]) is Err {
                model::lemma_collect_fails(s, f, i + 1);
            }
        }
        if let Some(raw) = &sources[i].id {
            let id = text::trim(raw.as_str());
            let number = text::decimal_text(i as u128);
            let at = text::join4("pricing.sources", "[", number.as_str(), "]");
            let field = text::join2(at.as_str(), ".id");
            if id.is_empty() {
                return Err(
                    PricingConfigError::new(
                        field.as_str(),
                        "a pricing source `id` must not be empty; omit it to derive one from the location, or write a non-empty name",
                    ),
                );
            }
            if model::holds_text(&reserved, id) {
                let message = text::join3(
                    "duplicate source id `",
                    id,
                    "`; source ids must be unique",
                );
                return Err(PricingConfigError::new(field.as_str(), message.as_str()));
            }
            let ghost before = model::seq_view(reserved@);
            reserved.push(text::owned(id));
            assert(names_id(s, i as int, id@));
            assert(model::seq_view(reserved@) =~= before.push(id@));
            assert forall|name: Seq<char>| model::seq_view(reserved@).contains(name) <==> exists|
                j: int,
            |
                0 <= j < i + 1 && #[trigger] names_id(s, j, name) by {
                lemma_push_contains(before, id@, name);
                if exists|j: int| 0 <= j < i + 1 && #[trigger] names_id(s, j, name) {
                    let j = choose|j: int| 0 <= j < i + 1 && #[trigger] names_id(s, j, name);
                    if j < i {
                        assert(before.contains(name));
                    }
                }
                if before.contains(name) {
                    let j = choose|j: int| 0 <= j < i && #[trigger] names_id(s, j, name);
                    assert(0 <= j < i + 1 && names_id(s, j, name));
                }
            }
        } else {
            assert(forall|name: Seq<char>| !names_id(s, i as int, name));
        }
        i += 1;
    }
    assert(s.take(i as int) =~= s);
    assert(names_in(model::seq_view(reserved@)) =~= taken_ids(s, Seq::empty()));
    Ok(reserved)
}

proof fn lemma_push_contains(s: Seq<Seq<char>>, x: Seq<char>, y: Seq<char>)
    ensures
        s.push(x).contains(y) <==> (s.contains(y) || x == y),
{
    if s.contains(y) {
        let k = choose|k: int| 0 <= k < s.len() && s[k] == y;
        assert(s.push(x)[k] == y);
    }
    if x == y {
        assert(s.push(x)[s.len() as int] == y);
    }
    if s.push(x).contains(y) {
        let k = choose|k: int| 0 <= k < s.push(x).len() && s.push(x)[k] == y;
        if k < s.len() {
            assert(s[k] == y);
        }
    }
}

/// Convert the `index`th source, which has the id `id`.
fn convert_source(
    source: &PricingSourceFile,
    path: String,
    id: String,
    at: &str,
    currency: Currency,
) -> (r: Result<PricingSource, PricingConfigError>)
    ensures
        ({
            let scope = model::collect(
                source@.scope,
                entry_step(
                    at@ + ".scope"@,
                    "a scope entry must name a provider or profile; omit `scope` to cover every provider"@,
                ),
            );
            let models = model::collect(
                source@.models,
                entry_step(
                    at@ + ".models"@,
                    "a model glob must not be empty; omit `models` to cover every model"@,
                ),
            );
            pricing_config::outcome(r) == match scope {
                Err(e) => Err(e),
                Ok(scope) => match models {
                    Err(e) => Err(e),
                    Ok(models) => if !format_known(source@.format) {
                        Err(
                            pricing_config::failure(
                                at@ + ".format"@,
                                "unknown source format `"@ + text::trimmed(
                                    source@.format->Some_0,
                                ) + "`; only `models_dev_v1` is supported"@,
                            ),
                        )
                    } else {
                        Ok(
                            SourceView {
                                id: id@,
                                path: path@,
                                scope,
                                models,
                                priority: match source@.priority {
                                    Some(p) => p,
                                    None => 0,
                                },
                                currency: currency@,
                            },
                        )
                    },
                },
            }
        }),
{
    let at_scope = text::join2(at, ".scope");
    let scope = match trim_entries(
        &source.scope,
        at_scope.as_str(),
        "a scope entry must name a provider or profile; omit `scope` to cover every provider",
    ) {
        Ok(v) => v,
        Err(e) => {
            return Err(e);
        },
    };
    let at_models = text::join2(at, ".models");
    let models = match trim_entries(
        &source.models,
        at_models.as_str(),
        "a model glob must not be empty; omit `models` to cover every model",
    ) {
        Ok(v) => v,
        Err(e) => {
            return Err(e);
        },
    };
    if let Some(format) = &source.format {
        let format = text::trim(format.as_str());
        if !format.is_empty() && !text::same(format, "models_dev_v1") {
            let field = text::join2(at, ".format");
            let message = text::join3(
                "unknown source format `",
                format,
                "`; only `models_dev_v1` is supported",
            );
            return Err(PricingConfigError::new(field.as_str(), message.as_str()));
        }
    }
    let priority: i64 = match source.priority {
        Some(p) => p,
        None => 0,
    };
    Ok(PricingSource { id, path, scope, models, priority, currency })
}

/// What the validation of the sources gives, in resolution order.
pub open spec fn sources_outcome(
    r: Result<(Vec<PricingSource>, Vec<String>), PricingConfigError>,
    sources: Seq<PricingSourceFileView>,
    env: EnvView,
) -> bool {
    match r {
        Ok(v) => {
            &&& sources_of(sources, env) is Ok
            &&& in_resolution_order(model::seq_view(v.0@))
            &&& model::seq_view(v.0@).to_multiset() == sources_of(
                sources,
                env,
            )->Ok_0.to_multiset()
            &&& model::seq_view(v.1@) == source_warnings(sources, sources.len() as int, env)
        },
        Err(e) => sources_of(sources, env) == Err::<Seq<SourceView>, ErrorView>(e@),
    }
}

/// Validate `[[pricing.sources]]` and put the entries in resolution order. The
/// second list holds the warnings about currencies.
pub fn convert_sources(sources: &Vec<PricingSourceFile>, env: &PricingEnv) -> (r: Result<
    (Vec<PricingSource>, Vec<String>),
    PricingConfigError,
>)
    ensures
        sources_outcome(r, model::seq_view(sources@), env@),
{
    let ghost s = model::seq_view(sources@);
    let ghost f = source_step(s, env@);
    let mut used = match check_explicit_ids(sources) {
        Ok(v) => v,
        Err(e) => {
            return Err(e);
        },
    };
    let mut warnings: Vec<String> = Vec::new();
    let mut out: Vec<PricingSource> = Vec::new();
    assert(model::seq_view(out@) =~= Seq::empty());
    assert(model::seq_view(warnings@) =~= Seq::empty());
    let mut i: usize = 0;
    while i < sources.len()
        invariant
            i <= sources@.len(),
            s == model::seq_view(sources@),
            f == source_step(s, env@),
            names_in(model::seq_view(used@)) == taken_ids(s, source_ids(s, i as int, env@)),
            model::collect(s, explicit_step(s)) is Ok,
            model::collect(s.take(i as int), f) == Ok::<Seq<SourceView>, ErrorView>(
                model::seq_view(out@),
            ),
            model::seq_view(warnings@) == source_warnings(s, i as int, env@),
        decreases sources.len() - i,
    {
        let ghost given = source_ids(s, i as int, env@);
        proof {
            model::lemma_collect_step(s, f, i as int);
            assert(f(i as int, s[i as int]) == source_of(s, i as int, env@));
            if f(i as int, s[i as int]) is Err {
                model::lemma_collect_fails(s, f, i + 1);
            }
        }
        let source = &sources[i];
        let number = text::decimal_text(i as u128);
        let at = text::join4("pricing.sources", "[", number.as_str(), "]");
        let at_file = text::join2(at.as_str(), ".file");
        let path = match parse_source_location(source.file.as_str(), at_file.as_str(), env) {
            Ok(path) => path,
            Err(e) => {
                return Err(e);
            },
        };
        assert(path@ == place_of(s, i as int, env@));
        let ghost names = model::seq_view(used@);
        let id = match &source.id {
            Some(raw) => {
                let id = text::owned(text::trim(raw.as_str()));
                assert(names_id(s, i as int, id@));
                assert(taken_ids(s, given.push(id@)) =~= taken_ids(s, given)) by {
                    assert forall|name: Seq<char>| taken_ids(s, given.push(id@)).contains(name)
                        == taken_ids(s, given).contains(name) by {
                        lemma_push_contains(given, id@, name);
                    }
                }
                id
            },
            None => {
                let id = unique_derived_id(path.as_str(), i, &used);
                used.push(id.clone());
                proof {
                    assert(model::seq_view(used@) =~= names.push(id@));
                    assert forall|name: Seq<char>| #[trigger] names_in(
                        model::seq_view(used@),
                    ).contains(name) == taken_ids(s, given.push(id@)).contains(name) by {
                        lemma_push_contains(names, id@, name);
                        lemma_push_contains(given, id@, name);
                        assert(names_in(names).contains(name) == taken_ids(s, given).contains(
                            name,
                        ));
                    }
                    assert(names_in(model::seq_view(used@)) =~= taken_ids(s, given.push(id@)));
                }
                id
            },
        };
        assert(id@ == id_of(s, i as int, given, env@));
        let at_currency = text::join2(at.as_str(), ".currency");
        let written: &str = match &source.currency {
            Some(code) => code.as_str(),
            None => "USD",
        };
        let currency = parse_currency(written, at_currency.as_str(), env, &mut warnings);
        match convert_source(source, path, id, at.as_str(), currency) {
            Ok(converted) => {
                let ghost before = model::seq_view(out@);
                out.push(converted);
                assert(model::seq_view(out@) =~= before.push(converted@));
            },
            Err(e) => {
                return Err(e);
            },
        }
        i += 1;
    }
    assert(s.take(i as int) =~= s);
    Ok((sort_sources(out), warnings))
}

/// A finite list leaves some number free for `base`.
proof fn lemma_free_number_exists(base: Seq<char>, names: Seq<Seq<char>>, from: nat)
    requires
        from >= 2,
        forall|m: nat| 2 <= m < from ==> names.contains(#[trigger] numbered(base, m)),
    ensures
        exists|n: nat| first_free(base, names_in(names), n),
    decreases names.len() + 3 - from,
{
    lemma_some_number_is_free(base, names, from);
    if names.contains(numbered(base, from)) {
        lemma_free_number_exists(base, names, from + 1);
    } else {
        assert(first_free(base, names_in(names), from));
    }
}

/// An id that had to be made up is one that was not in use.
pub proof fn derived_id_is_new(base: Seq<char>, names: Seq<Seq<char>>)
    ensures
        !names.contains(unique_id(base, names_in(names))),
{
    if names.contains(base) {
        lemma_free_number_exists(base, names, 2);
        let n = choose|n: nat| first_free(base, names_in(names), n);
        assert(first_free(base, names_in(names), n));
        assert(!names_in(names).contains(numbered(base, n)));
    } else {
        assert(!names_in(names).contains(base));
    }
}

proof fn lemma_ids_len(sources: Seq<PricingSourceFileView>, n: int, env: EnvView)
    requires
        0 <= n,
    ensures
        source_ids(sources, n, env).len() == n,
        forall|i: int|
            0 <= i < n ==> #[trigger] source_ids(sources, n, env)[i] == id_of(
                sources,
                i,
                source_ids(sources, i, env),
                env,
            ),
    decreases n,
{
    if n > 0 {
        lemma_ids_len(sources, n - 1, env);
    }
}

/// The ids of the sources that name one, in order.
spec fn explicit_names(sources: Seq<PricingSourceFileView>) -> Seq<Seq<char>>
    decreases sources.len(),
{
    if sources.len() == 0 {
        Seq::empty()
    } else {
        match sources.last().id {
            Some(raw) => explicit_names(sources.drop_last()).push(text::trimmed(raw)),
            None => explicit_names(sources.drop_last()),
        }
    }
}

proof fn lemma_explicit_names(sources: Seq<PricingSourceFileView>, id: Seq<char>)
    ensures
        explicit_names(sources).contains(id) <==> exists|j: int|
            0 <= j < sources.len() && #[trigger] names_id(sources, j, id),
    decreases sources.len(),
{
    if sources.len() > 0 {
        let front = sources.drop_last();
        let last = sources.len() - 1;
        lemma_explicit_names(front, id);
        if sources.last().id is Some {
            lemma_push_contains(
                explicit_names(front),
                text::trimmed(sources.last().id->Some_0),
                id,
            );
        }
        if explicit_names(sources).contains(id) {
            if explicit_names(front).contains(id) {
                let j = choose|j: int| 0 <= j < front.len() && #[trigger] names_id(front, j, id);
                assert(names_id(sources, j, id));
            } else {
                assert(names_id(sources, last, id));
            }
        }
        if exists|j: int| 0 <= j < sources.len() && #[trigger] names_id(sources, j, id) {
            let j = choose|j: int| 0 <= j < sources.len() && #[trigger] names_id(sources, j, id);
            if j < last {
                assert(names_id(front, j, id));
            }
        }
    }
}

/// A derived id is none of the ids that sources name themselves, wherever they
/// are declared, and none of those given before it.
pub proof fn derived_id_never_collides(
    sources: Seq<PricingSourceFileView>,
    index: int,
    env: EnvView,
)
    requires
        0 <= index < sources.len(),
        sources[index].id is None,
    ensures
        !taken_ids(sources, source_ids(sources, index, env)).contains(
            id_of(sources, index, source_ids(sources, index, env), env),
        ),
{
    let given = source_ids(sources, index, env);
    let names = explicit_names(sources) + given;
    assert forall|name: Seq<char>| #[trigger] names_in(names).contains(name) == taken_ids(
        sources,
        given,
    ).contains(name) by {
        lemma_explicit_names(sources, name);
        lemma_concat_contains(explicit_names(sources), given, name);
    }
    assert(names_in(names) =~= taken_ids(sources, given));
    derived_id_is_new(derived_id(place_of(sources, index, env), index), names);
}

proof fn lemma_concat_contains(a: Seq<Seq<char>>, b: Seq<Seq<char>>, x: Seq<char>)
    ensures
        (a + b).contains(x) <==> (a.contains(x) || b.contains(x)),
{
    if a.contains(x) {
        let k = choose|k: int| 0 <= k < a.len() && a[k] == x;
        assert((a + b)[k] == x);
    }
    if b.contains(x) {
        let k = choose|k: int| 0 <= k < b.len() && b[k] == x;
        assert((a + b)[k + a.len()] == x);
    }
    if (a + b).contains(x) {
        let k = choose|k: int| 0 <= k < (a + b).len() && (a + b)[k] == x;
        if k < a.len() {
            assert(a[k] == x);
        } else {
            assert(b[k - a.len()] == x);
        }
    }
}

/// No two validated sources have the same id.
pub proof fn source_ids_are_distinct(sources: Seq<PricingSourceFileView>, env: EnvView)
    requires
        sources_of(sources, env) is Ok,
    ensures
        forall|i: int, j: int|
            0 <= i < j < sources.len() ==> (#[trigger] sources_of(sources, env)->Ok_0[i]).id != (
            #[trigger] sources_of(sources, env)->Ok_0[j]).id,
{
    let f = source_step(sources, env);
    let g = explicit_step(sources);
    let all = sources_of(sources, env)->Ok_0;
    model::lemma_collect_values(sources, f);
    model::lemma_collect_values(sources, g);
    assert forall|i: int, j: int| 0 <= i < j < sources.len() implies (#[trigger] all[i]).id != (
    #[trigger] all[j]).id by {
        assert(f(i, sources[i]) == source_of(sources, i, env));
        assert(f(j, sources[j]) == source_of(sources, j, env));
        assert(g(j, sources[j]) == explicit_id(sources, j));
        let given = source_ids(sources, j, env);
        lemma_ids_len(sources, j, env);
        assert(given[i] == all[i].id);
        assert(given.contains(all[i].id));
        if sources[j].id is None {
            derived_id_never_collides(sources, j, env);
        } else if sources[i].id is None {
            derived_id_never_collides(sources, i, env);
            assert(names_id(sources, j, all[j].id));
        } else {
            assert(names_id(sources, i, all[i].id));
        }
    }
}

/// The order that validated sources resolve in is a property of the section:
/// there is one order by priority and id.
pub proof fn resolution_order_is_determined(
    sources: Seq<PricingSourceFileView>,
    env: EnvView,
    a: Seq<SourceView>,
    b: Seq<SourceView>,
)
    requires
        sources_of(sources, env) is Ok,
        in_resolution_order(a),
        in_resolution_order(b),
        a.to_multiset() == sources_of(sources, env)->Ok_0.to_multiset(),
        b.to_multiset() == sources_of(sources, env)->Ok_0.to_multiset(),
    ensures
        a == b,
{
    broadcast use vstd::seq_lib::group_to_multiset_ensures;

    let all = sources_of(sources, env)->Ok_0;
    source_ids_are_distinct(sources, env);
    model::lemma_collect_values(sources, source_step(sources, env));
    assert forall|x: SourceView, y: SourceView|
        a.contains(x) && a.contains(y) && x != y implies #[trigger] PricingSource::precedes(x, y)
        || PricingSource::precedes(y, x) by {
        assert(all.to_multiset().count(x) > 0);
        assert(all.to_multiset().count(y) > 0);
        assert(all.contains(x) && all.contains(y));
        let i = choose|i: int| 0 <= i < all.len() && all[i] == x;
        let j = choose|j: int| 0 <= j < all.len() && all[j] == y;
        assert(all[i].id != all[j].id);
        text::lemma_before_total(x.id, y.id);
    }
    order::order_is_determined::<PricingSource>(a, b);
}

/// Every source names an id of its own.
pub open spec fn ids_named(sources: Seq<PricingSourceFileView>) -> bool {
    &&& forall|i: int|
        0 <= i < sources.len() ==> (#[trigger] sources[i]).id is Some && text::trimmed(
            sources[i].id->Some_0,
        ).len() > 0
    &&& forall|i: int, j: int|
        0 <= i < j < sources.len() ==> text::trimmed((#[trigger] sources[i]).id->Some_0)
            != text::trimmed((#[trigger] sources[j]).id->Some_0)
}

/// What a list of entries gives does not depend on where it stands.
proof fn lemma_entries_anywhere(
    values: Seq<Seq<char>>,
    one: Seq<char>,
    other: Seq<char>,
    blank: Seq<char>,
)
    ensures
        model::collect(values, entry_step(one, blank)) is Ok == model::collect(
            values,
            entry_step(other, blank),
        ) is Ok,
        model::collect(values, entry_step(one, blank)) is Ok ==> model::collect(
            values,
            entry_step(one, blank),
        ) == model::collect(values, entry_step(other, blank)),
    decreases values.len(),
{
    if values.len() > 0 {
        lemma_entries_anywhere(values.drop_last(), one, other, blank);
    }
}

/// A source that names its id is valid, and the same, wherever it stands.
proof fn lemma_source_anywhere(
    one: Seq<PricingSourceFileView>,
    i: int,
    other: Seq<PricingSourceFileView>,
    j: int,
    env: EnvView,
)
    requires
        0 <= i < one.len(),
        0 <= j < other.len(),
        one[i] == other[j],
        one[i].id is Some,
        source_of(one, i, env) is Ok,
    ensures
        source_of(other, j, env) == source_of(one, i, env),
{
    lemma_entries_anywhere(
        one[i].scope,
        source_path(i) + ".scope"@,
        source_path(j) + ".scope"@,
        "a scope entry must name a provider or profile; omit `scope` to cover every provider"@,
    );
    lemma_entries_anywhere(
        one[i].models,
        source_path(i) + ".models"@,
        source_path(j) + ".models"@,
        "a model glob must not be empty; omit `models` to cover every model"@,
    );
}

/// Each source of one list is one of the other, and gives the same.
proof fn lemma_listed_anywhere(
    one: Seq<PricingSourceFileView>,
    other: Seq<PricingSourceFileView>,
    j: int,
    env: EnvView,
) -> (i: int)
    requires
        ids_named(one),
        one.to_multiset() == other.to_multiset(),
        sources_of(one, env) is Ok,
        0 <= j < other.len(),
    ensures
        0 <= i < one.len(),
        one[i] == other[j],
        source_of(one, i, env) == Ok::<SourceView, ErrorView>(sources_of(one, env)->Ok_0[i]),
        source_of(other, j, env) == source_of(one, i, env),
{
    broadcast use vstd::seq_lib::group_to_multiset_ensures;

    assert(other.contains(other[j]));
    assert(one.to_multiset().count(other[j]) > 0);
    assert(one.contains(other[j]));
    let i = choose|i: int| 0 <= i < one.len() && one[i] == other[j];
    let f = source_step(one, env);
    model::lemma_collect_values(one, f);
    assert(f(i, one[i]) == source_of(one, i, env));
    lemma_source_anywhere(one, i, other, j, env);
    i
}

/// A permutation of sources that name their ids is a list of such sources.
proof fn lemma_ids_named_anywhere(
    one: Seq<PricingSourceFileView>,
    other: Seq<PricingSourceFileView>,
)
    requires
        ids_named(one),
        one.to_multiset() == other.to_multiset(),
    ensures
        ids_named(other),
{
    broadcast use vstd::seq_lib::group_to_multiset_ensures;

    assert forall|i: int, j: int| 0 <= i < one.len() && 0 <= j < one.len() && i != j implies one[i]
        != one[j] by {
        if i < j {
            assert(text::trimmed(one[i].id->Some_0) != text::trimmed(one[j].id->Some_0));
        } else {
            assert(text::trimmed(one[j].id->Some_0) != text::trimmed(one[i].id->Some_0));
        }
    }
    assert(one.no_duplicates());
    one.lemma_multiset_has_no_duplicates();
    other.lemma_multiset_has_no_duplicates_conv();
    assert forall|j: int| 0 <= j < other.len() implies one.contains(#[trigger] other[j]) by {
        assert(other.contains(other[j]));
        assert(one.to_multiset().count(other[j]) > 0);
    }
    assert forall|j: int| 0 <= j < other.len() implies (#[trigger] other[j]).id is Some
        && text::trimmed(other[j].id->Some_0).len() > 0 by {
        assert(one.contains(other[j]));
        let i = choose|i: int| 0 <= i < one.len() && one[i] == other[j];
        assert(one[i].id is Some);
    }
    assert forall|i: int, j: int| 0 <= i < j < other.len() implies text::trimmed(
        (#[trigger] other[i]).id->Some_0,
    ) != text::trimmed((#[trigger] other[j]).id->Some_0) by {
        assert(one.contains(other[i]) && one.contains(other[j]));
        let a = choose|a: int| 0 <= a < one.len() && one[a] == other[i];
        let b = choose|b: int| 0 <= b < one.len() && one[b] == other[j];
        assert(other[i] != other[j]);
        assert(a != b);
        if a < b {
            assert(text::trimmed(one[a].id->Some_0) != text::trimmed(one[b].id->Some_0));
        } else {
            assert(text::trimmed(one[b].id->Some_0) != text::trimmed(one[a].id->Some_0));
        }
    }
}

proof fn lemma_valid_anywhere(
    one: Seq<PricingSourceFileView>,
    other: Seq<PricingSourceFileView>,
    env: EnvView,
)
    requires
        ids_named(one),
        one.to_multiset() == other.to_multiset(),
        sources_of(one, env) is Ok,
    ensures
        sources_of(other, env) is Ok,
        forall|x: SourceView|
            sources_of(other, env)->Ok_0.contains(x) ==> #[trigger] sources_of(
                one,
                env,
            )->Ok_0.contains(x),
{
    lemma_ids_named_anywhere(one, other);
    let g = explicit_step(other);
    let f = source_step(other, env);
    assert forall|j: int| 0 <= j < other.len() implies (#[trigger] g(j, other[j])) is Ok by {
        let id = text::trimmed(other[j].id->Some_0);
        assert(explicit_id(other, j) is Ok) by {
            assert forall|k: int| 0 <= k < j implies !#[trigger] names_id(other, k, id) by {
                assert(text::trimmed(other[k].id->Some_0) != text::trimmed(other[j].id->Some_0));
            }
        }
    }
    model::lemma_collect_all_ok(other, g);
    assert forall|j: int| 0 <= j < other.len() implies (#[trigger] f(j, other[j])) is Ok by {
        let i = lemma_listed_anywhere(one, other, j, env);
        assert(f(j, other[j]) == source_of(other, j, env));
    }
    model::lemma_collect_all_ok(other, f);
    model::lemma_collect_values(other, f);
    model::lemma_collect_values(one, source_step(one, env));
    assert forall|x: SourceView| sources_of(other, env)->Ok_0.contains(x) implies
        #[trigger] sources_of(one, env)->Ok_0.contains(x) by {
        let all = sources_of(other, env)->Ok_0;
        let j = choose|j: int| 0 <= j < all.len() && all[j] == x;
        assert(f(j, other[j]) == source_of(other, j, env));
        let i = lemma_listed_anywhere(one, other, j, env);
        assert(sources_of(one, env)->Ok_0[i] == x);
    }
}

proof fn lemma_sources_no_duplicates(sources: Seq<PricingSourceFileView>, env: EnvView)
    requires
        sources_of(sources, env) is Ok,
    ensures
        sources_of(sources, env)->Ok_0.no_duplicates(),
{
    let all = sources_of(sources, env)->Ok_0;
    source_ids_are_distinct(sources, env);
    model::lemma_collect_values(sources, source_step(sources, env));
    assert forall|i: int, j: int| 0 <= i < all.len() && 0 <= j < all.len() && i != j implies all[i]
        != all[j] by {
        if i < j {
            assert(all[i].id != all[j].id);
        } else {
            assert(all[j].id != all[i].id);
        }
    }
}

/// Sources that name their ids are valid in whatever order the file lists them
/// in, and are the same sources.
pub proof fn file_order_does_not_matter(
    one: Seq<PricingSourceFileView>,
    other: Seq<PricingSourceFileView>,
    env: EnvView,
)
    requires
        ids_named(one),
        one.to_multiset() == other.to_multiset(),
        sources_of(one, env) is Ok,
    ensures
        sources_of(other, env) is Ok,
        sources_of(other, env)->Ok_0.to_multiset() == sources_of(one, env)->Ok_0.to_multiset(),
{
    broadcast use vstd::seq_lib::group_to_multiset_ensures;

    lemma_ids_named_anywhere(one, other);
    lemma_valid_anywhere(one, other, env);
    lemma_valid_anywhere(other, one, env);
    let x = sources_of(one, env)->Ok_0;
    let y = sources_of(other, env)->Ok_0;
    lemma_sources_no_duplicates(one, env);
    lemma_sources_no_duplicates(other, env);
    x.lemma_multiset_has_no_duplicates();
    y.lemma_multiset_has_no_duplicates();
    assert forall|v: SourceView| #[trigger] x.to_multiset().count(v) == y.to_multiset().count(
        v,
    ) by {
        if x.contains(v) {
            assert(sources_of(one, env)->Ok_0.contains(v));
            assert(sources_of(other, env)->Ok_0.contains(v));
            assert(x.to_multiset().contains(v) && y.to_multiset().contains(v));
        } else {
            if y.contains(v) {
                assert(sources_of(one, env)->Ok_0.contains(v));
            }
            assert(!x.to_multiset().contains(v) && !y.to_multiset().contains(v));
        }
    }
    assert(x.to_multiset() =~= y.to_multiset());
}

/// Sources that name their ids resolve in one order whatever order the file
/// lists them in.
pub proof fn resolution_does_not_depend_on_file_order(
    one: Seq<PricingSourceFileView>,
    other: Seq<PricingSourceFileView>,
    env: EnvView,
    a: Seq<SourceView>,
    b: Seq<SourceView>,
)
    requires
        ids_named(one),
        one.to_multiset() == other.to_multiset(),
        sources_of(one, env) is Ok,
        in_resolution_order(a),
        a.to_multiset() == sources_of(one, env)->Ok_0.to_multiset(),
        in_resolution_order(b),
        b.to_multiset() == sources_of(other, env)->Ok_0.to_multiset(),
    ensures
        a == b,
{
    file_order_does_not_matter(one, other, env);
    resolution_order_is_determined(one, env, a, b);
}

/// A source keeps what was written: where its file is, each entry of its scope
/// and each glob without the white space around it, its priority, which is zero
/// where none is written, and its currency in capital letters, which is the US
/// dollar where none is written. An id that is written is kept.
pub proof fn source_keeps_what_was_written(
    sources: Seq<PricingSourceFileView>,
    index: int,
    env: EnvView,
)
    requires
        0 <= index < sources.len(),
        source_of(sources, index, env) is Ok,
    ensures
        ({
            let written = sources[index];
            let made = source_of(sources, index, env)->Ok_0;
            &&& source_location(written.file, source_path(index) + ".file"@, env) == Ok::<
                Seq<char>,
                ErrorView,
            >(made.path)
            &&& made.scope.len() == written.scope.len()
            &&& forall|k: int|
                0 <= k < written.scope.len() ==> #[trigger] made.scope[k] == text::trimmed(
                    written.scope[k],
                )
            &&& made.models.len() == written.models.len()
            &&& forall|k: int|
                0 <= k < written.models.len() ==> #[trigger] made.models[k] == text::trimmed(
                    written.models[k],
                )
            &&& written.priority is Some ==> made.priority == written.priority->Some_0
            &&& written.priority is None ==> made.priority == 0
            &&& written.currency is Some ==> made.currency == text::uppered(
                text::trimmed(written.currency->Some_0),
            )
            &&& written.currency is None ==> made.currency == currency::normal_code("USD"@)
            &&& written.id is Some ==> made.id == text::trimmed(written.id->Some_0)
        }),
{
    let written = sources[index];
    let made = source_of(sources, index, env)->Ok_0;
    let at = source_path(index);
    let scope = entry_step(
        at + ".scope"@,
        "a scope entry must name a provider or profile; omit `scope` to cover every provider"@,
    );
    let globs = entry_step(
        at + ".models"@,
        "a model glob must not be empty; omit `models` to cover every model"@,
    );
    model::lemma_collect_values(written.scope, scope);
    model::lemma_collect_values(written.models, globs);
    assert forall|k: int| 0 <= k < written.scope.len() implies #[trigger] made.scope[k]
        == text::trimmed(written.scope[k]) by {
        assert(scope(k, written.scope[k]) == Ok::<Seq<char>, ErrorView>(made.scope[k]));
    }
    assert forall|k: int| 0 <= k < written.models.len() implies #[trigger] made.models[k]
        == text::trimmed(written.models[k]) by {
        assert(globs(k, written.models[k]) == Ok::<Seq<char>, ErrorView>(made.models[k]));
    }
}

/// A source is accepted exactly where its file can be resolved, no entry of its
/// scope or its globs is blank, and its format is left out or the one there is.
pub proof fn valid_source_is_accepted(
    sources: Seq<PricingSourceFileView>,
    index: int,
    env: EnvView,
)
    requires
        0 <= index < sources.len(),
    ensures
        source_of(sources, index, env) is Ok <==> {
            let written = sources[index];
            &&& source_location(written.file, source_path(index) + ".file"@, env) is Ok
            &&& forall|k: int|
                0 <= k < written.scope.len() ==> text::trimmed(
                    #[trigger] written.scope[k],
                ).len() > 0
            &&& forall|k: int|
                0 <= k < written.models.len() ==> text::trimmed(
                    #[trigger] written.models[k],
                ).len() > 0
            &&& written.format is Some ==> text::trimmed(written.format->Some_0).len() == 0
                || text::trimmed(written.format->Some_0) == "models_dev_v1"@
        },
{
    let written = sources[index];
    let at = source_path(index);
    let scope = entry_step(
        at + ".scope"@,
        "a scope entry must name a provider or profile; omit `scope` to cover every provider"@,
    );
    let globs = entry_step(
        at + ".models"@,
        "a model glob must not be empty; omit `models` to cover every model"@,
    );
    if source_of(sources, index, env) is Ok {
        model::lemma_collect_values(written.scope, scope);
        model::lemma_collect_values(written.models, globs);
        assert forall|k: int| 0 <= k < written.scope.len() implies text::trimmed(
            #[trigger] written.scope[k],
        ).len() > 0 by {
            assert(scope(k, written.scope[k]) is Ok);
        }
        assert forall|k: int| 0 <= k < written.models.len() implies text::trimmed(
            #[trigger] written.models[k],
        ).len() > 0 by {
            assert(globs(k, written.models[k]) is Ok);
        }
    } else {
        if forall|k: int|
            0 <= k < written.scope.len() ==> text::trimmed(#[trigger] written.scope[k]).len() > 0 {
            assert forall|k: int| 0 <= k < written.scope.len() implies (#[trigger] scope(
                k,
                written.scope[k],
            )) is Ok by {
                assert(text::trimmed(written.scope[k]).len() > 0);
            }
            model::lemma_collect_all_ok(written.scope, scope);
        }
        if forall|k: int|
            0 <= k < written.models.len() ==> text::trimmed(#[trigger] written.models[k]).len()
                > 0 {
            assert forall|k: int| 0 <= k < written.models.len() implies (#[trigger] globs(
                k,
                written.models[k],
            )) is Ok by {
                assert(text::trimmed(written.models[k]).len() > 0);
            }
            model::lemma_collect_all_ok(written.models, globs);
        }
    }
}

/// The sources are accepted exactly where each is, no id that is written is
/// blank, and none is written twice.
pub proof fn valid_sources_are_accepted(sources: Seq<PricingSourceFileView>, env: EnvView)
    ensures
        sources_of(sources, env) is Ok <==> {
            &&& forall|i: int|
                0 <= i < sources.len() ==> (#[trigger] source_of(sources, i, env)) is Ok
            &&& forall|i: int|
                0 <= i < sources.len() && (#[trigger] sources[i]).id is Some ==> text::trimmed(
                    sources[i].id->Some_0,
                ).len() > 0
            &&& forall|i: int, j: int|
                0 <= i < j < sources.len() && (#[trigger] sources[i]).id is Some && (
                #[trigger] sources[j]).id is Some ==> text::trimmed(sources[i].id->Some_0)
                    != text::trimmed(sources[j].id->Some_0)
        },
{
    let g = explicit_step(sources);
    let f = source_step(sources, env);
    if sources_of(sources, env) is Ok {
        model::lemma_collect_values(sources, g);
        model::lemma_collect_values(sources, f);
        assert forall|i: int| 0 <= i < sources.len() implies (#[trigger] source_of(
            sources,
            i,
            env,
        )) is Ok by {
            assert(f(i, sources[i]) is Ok);
        }
        assert forall|i: int| 0 <= i < sources.len() && (#[trigger] sources[i]).id is Some implies
            text::trimmed(sources[i].id->Some_0).len() > 0 by {
            assert(g(i, sources[i]) is Ok);
        }
        assert forall|i: int, j: int|
            0 <= i < j < sources.len() && (#[trigger] sources[i]).id is Some && (
            #[trigger] sources[j]).id is Some implies text::trimmed(sources[i].id->Some_0)
            != text::trimmed(sources[j].id->Some_0) by {
            assert(g(j, sources[j]) is Ok);
            assert(explicit_id(sources, j) is Ok);
            if text::trimmed(sources[i].id->Some_0) == text::trimmed(sources[j].id->Some_0) {
                assert(names_id(sources, i, text::trimmed(sources[j].id->Some_0)));
            }
        }
    } else if (forall|i: int|
        0 <= i < sources.len() ==> (#[trigger] source_of(sources, i, env)) is Ok) && (forall|i: int|
        0 <= i < sources.len() && (#[trigger] sources[i]).id is Some ==> text::trimmed(
            sources[i].id->Some_0,
        ).len() > 0) && (forall|i: int, j: int|
        0 <= i < j < sources.len() && (#[trigger] sources[i]).id is Some && (
        #[trigger] sources[j]).id is Some ==> text::trimmed(sources[i].id->Some_0)
            != text::trimmed(sources[j].id->Some_0)) {
        assert forall|i: int| 0 <= i < sources.len() implies (#[trigger] g(i, sources[i])) is Ok by {
            assert(explicit_id(sources, i) is Ok) by {
                if sources[i].id is Some {
                    let id = text::trimmed(sources[i].id->Some_0);
                    assert forall|j: int| 0 <= j < i implies !#[trigger] names_id(
                        sources,
                        j,
                        id,
                    ) by {
                        if sources[j].id is Some {
                            assert(text::trimmed(sources[j].id->Some_0) != id);
                        }
                    }
                }
            }
        }
        model::lemma_collect_all_ok(sources, g);
        assert forall|i: int| 0 <= i < sources.len() implies (#[trigger] f(i, sources[i])) is Ok by {
            assert(source_of(sources, i, env) is Ok);
        }
        model::lemma_collect_all_ok(sources, f);
    }
}

/// In resolution order a source with a lower priority comes before one with a
/// higher, and of two with the same priority the one whose id comes first.
pub proof fn lower_priority_resolves_first(sources: Seq<SourceView>, i: int, j: int)
    requires
        in_resolution_order(sources),
        0 <= i < j < sources.len(),
    ensures
        sources[i].priority <= sources[j].priority,
        sources[i].priority == sources[j].priority ==> !text::before(sources[j].id, sources[i].id),
{
    assert(!resolves_before(sources[j], sources[i]));
}

/// A bare name is a file in the program's cache directory; a path is used as it
/// is written, where a leading tilde stands for the home directory.
pub proof fn file_is_found_where_it_is_written(
    raw: Seq<char>,
    path: Seq<char>,
    empty: Seq<char>,
    env: EnvView,
)
    ensures
        ({
            let name = text::trimmed(raw);
            let is_path = name.contains('/') || name.contains('\\') || (name.len() > 0 && name[0]
                == '~');
            let found = location_of(raw, path, empty, env);
            &&& name.len() == 0 ==> found is Err
            &&& name.len() > 0 && !is_path && found is Ok ==> found->Ok_0 == paths::joined(
                env.cache_dir,
                name,
            )
            &&& name.len() > 0 && !is_path ==> (found is Err <==> guarded(name))
            &&& is_path ==> found is Ok
            &&& is_path && name[0] != '~' ==> found->Ok_0 == name
            &&& is_path && env.home is None ==> found->Ok_0 == name
            &&& is_path && env.home is Some && name == "~"@ ==> found->Ok_0 == env.home->Some_0
        }),
{
    reveal_strlit("~");
    reveal_strlit("~/");
    let name = text::trimmed(raw);
    if name.len() >= 2 {
        assert(name.take(2)[0] == name[0]);
    }
    if name.contains('/') || name.contains('\\') {
        assert(name.len() > 0);
    }
}

/// What follows a tilde and a slash is a path below the home directory.
pub proof fn tilde_is_the_home_directory(rest: Seq<char>, home: Seq<char>)
    ensures
        expanded("~/"@ + rest, Some(home)) == paths::joined(home, rest),
        expanded("~/"@ + rest, None) == "~/"@ + rest,
{
    reveal_strlit("~");
    reveal_strlit("~/");
    let path = "~/"@ + rest;
    assert(path.take(2) =~= "~/"@);
    assert(path.skip(2) =~= rest);
    assert(path.len() != "~"@.len());
}

/// The program's own cache files cannot be named: its two files, the model
/// lists, the endpoint lists and the search indexes.
pub proof fn own_cache_files_are_guarded(name: Seq<char>, middle: Seq<char>)
    ensures
        guarded("models_dev_pricing.json"@),
        guarded("pricing_sources.json"@),
        guarded(name + "_models.json"@),
        guarded(name + "_endpoints_"@ + middle + ".json"@),
        guarded("session_search_"@ + middle + "_index_v2.bin"@),
{
    let one = name + "_models.json"@;
    assert(one.skip(one.len() - "_models.json"@.len()) =~= "_models.json"@);
    let two = name + "_endpoints_"@ + middle + ".json"@;
    assert(two.skip(two.len() - ".json"@.len()) =~= ".json"@);
    assert(two.subrange(name.len() as int, (name.len() + "_endpoints_"@.len()) as int)
        =~= "_endpoints_"@);
    assert(text::occurs_at(two, "_endpoints_"@, name.len() as int));
    let three = "session_search_"@ + middle + "_index_v2.bin"@;
    assert(three.take("session_search_"@.len() as int) =~= "session_search_"@);
    assert(three.skip(three.len() - "_index_v2.bin"@.len()) =~= "_index_v2.bin"@);
}

/// A currency that the program does not know draws one warning, and a known one
/// draws none. The currency is accepted either way.
pub proof fn unknown_currency_is_warned_about(written: Seq<char>, path: Seq<char>, env: EnvView)
    ensures
        ({
            let code = text::uppered(text::trimmed(written));
            let known = exists|i: int|
                0 <= i < env.known_currencies.len() && env.known_currencies[i] == code;
            &&& known ==> currency_warnings(written, path, env).len() == 0
            &&& !known ==> currency_warnings(written, path, env) == seq![
                path + ": unrecognized currency code `"@ + code + "`; accepted as-is"@,
            ]
        }),
{
}

/// A source without an id is named after its file, and where the file has no
/// name by its number, counted from one.
pub proof fn source_is_named_after_its_file(path: Seq<char>, index: int, stem: Seq<char>)
    requires
        index >= 0,
    ensures
        paths::file_stem(path) == Some(stem) && text::trimmed(stem).len() > 0 ==> derived_id(
            path,
            index,
        ) == text::trimmed(stem),
        paths::file_stem(path) == Some(stem) && text::trimmed(stem).len() == 0 ==> derived_id(
            path,
            index,
        ) == "source"@ + text::decimal((index + 1) as nat),
        paths::file_stem(path) is None ==> derived_id(path, index) == "source"@ + text::decimal(
            (index + 1) as nat,
        ),
{
}

/// A name that is in use gets the first number from two on that makes it free; a
/// free one stays as it is.
pub proof fn taken_name_gets_the_first_free_number(
    base: Seq<char>,
    used: Set<Seq<char>>,
    n: nat,
)
    ensures
        !used.contains(base) ==> unique_id(base, used) == base,
        used.contains(base) && n >= 2 && !used.contains(base + "-"@ + text::decimal(n)) && (forall|
            m: nat,
        |
            2 <= m < n ==> used.contains(#[trigger] numbered(base, m))) ==> unique_id(base, used)
            == base + "-"@ + text::decimal(n),
        numbered(base, n) == base + "-"@ + text::decimal(n),
{
    if used.contains(base) && n >= 2 && !used.contains(base + "-"@ + text::decimal(n)) && (forall|
        m: nat,
    |
        2 <= m < n ==> used.contains(#[trigger] numbered(base, m))) {
        assert(first_free(base, used, n));
        let found = choose|found: nat| first_free(base, used, found);
        lemma_first_free_unique(base, used, n, found);
    }
}

/// The names in use are those that any source states, before or after, and those
/// that earlier ones got.
pub proof fn every_stated_id_is_in_use(
    sources: Seq<PricingSourceFileView>,
    given: Seq<Seq<char>>,
    j: int,
)
    ensures
        0 <= j < sources.len() && sources[j].id is Some ==> taken_ids(sources, given).contains(
            text::trimmed(sources[j].id->Some_0),
        ),
        0 <= j < given.len() ==> taken_ids(sources, given).contains(given[j]),
{
    if 0 <= j < sources.len() && sources[j].id is Some {
        assert(names_id(sources, j, text::trimmed(sources[j].id->Some_0)));
    }
}

/// An id that is stated must not be blank and must not be stated before.
pub proof fn stated_id_is_refused_when_blank_or_taken(
    sources: Seq<PricingSourceFileView>,
    index: int,
    earlier: int,
)
    requires
        0 <= index < sources.len(),
        sources[index].id is Some,
    ensures
        ({
            let id = text::trimmed(sources[index].id->Some_0);
            let says = |message: Seq<char>|
                explicit_id(sources, index) == Err::<Option<Seq<char>>, ErrorView>(
                    (ErrorView { field_path: source_path(index) + ".id"@, message }),
                );
            &&& id.len() == 0 ==> says(
                "a pricing source `id` must not be empty; omit it to derive one from the location, or write a non-empty name"@,
            )
            &&& id.len() > 0 && 0 <= earlier < index && sources[earlier].id is Some
                && text::trimmed(sources[earlier].id->Some_0) == id ==> says(
                "duplicate source id `"@ + id + "`; source ids must be unique"@,
            )
            &&& id.len() > 0 && (forall|k: int|
                0 <= k < index && (#[trigger] sources[k]).id is Some ==> text::trimmed(
                    sources[k].id->Some_0,
                ) != id) ==> explicit_id(sources, index) == Ok::<_, ErrorView>(Some(id))
            &&& source_path(index) == "pricing.sources"@ + "["@ + text::decimal(index as nat)
                + "]"@
        }),
{
    let id = text::trimmed(sources[index].id->Some_0);
    if 0 <= earlier < index && sources[earlier].id is Some && text::trimmed(
        sources[earlier].id->Some_0,
    ) == id {
        assert(names_id(sources, earlier, id));
    }
}

/// A source is refused with the error of its first part that is not valid: its
/// file, its scope, its globs, its format.
pub proof fn source_error_names_the_field(
    sources: Seq<PricingSourceFileView>,
    index: int,
    env: EnvView,
    at: int,
)
    requires
        0 <= index < sources.len(),
        0 <= at,
    ensures
        ({
            let source = sources[index];
            let place = source_path(index);
            let found = source_location(source.file, place + ".file"@, env);
            let said = source_of(sources, index, env);
            let filled = |list: Seq<Seq<char>>, n: int|
                forall|k: int| 0 <= k < n ==> text::trimmed(#[trigger] list[k]).len() > 0;
            let blank = |list: Seq<Seq<char>>|
                at < list.len() && filled(list, at) && text::trimmed(list[at]).len() == 0;
            &&& found is Err ==> said == Err::<SourceView, ErrorView>(found->Err_0)
            &&& found is Ok && blank(source.scope) ==> said == Err::<SourceView, ErrorView>(
                (ErrorView {
                    field_path: pricing_config::at_index(place + ".scope"@, at),
                    message: "a scope entry must name a provider or profile; omit `scope` to cover every provider"@,
                }),
            )
            &&& found is Ok && filled(source.scope, source.scope.len() as int) && blank(
                source.models,
            ) ==> said == Err::<SourceView, ErrorView>(
                (ErrorView {
                    field_path: pricing_config::at_index(place + ".models"@, at),
                    message: "a model glob must not be empty; omit `models` to cover every model"@,
                }),
            )
            &&& found is Ok && filled(source.scope, source.scope.len() as int) && filled(
                source.models,
                source.models.len() as int,
            ) && source.format is Some && text::trimmed(source.format->Some_0).len() > 0
                && text::trimmed(source.format->Some_0) != "models_dev_v1"@ ==> said == Err::<
                SourceView,
                ErrorView,
            >(
                (ErrorView {
                    field_path: place + ".format"@,
                    message: "unknown source format `"@ + text::trimmed(source.format->Some_0)
                        + "`; only `models_dev_v1` is supported"@,
                }),
            )
        }),
{
    let source = sources[index];
    let place = source_path(index);
    lemma_entries_outcome(
        source.scope,
        place + ".scope"@,
        "a scope entry must name a provider or profile; omit `scope` to cover every provider"@,
        at,
    );
    lemma_entries_outcome(
        source.models,
        place + ".models"@,
        "a model glob must not be empty; omit `models` to cover every model"@,
        at,
    );
}

proof fn lemma_entries_outcome(
    list: Seq<Seq<char>>,
    path: Seq<char>,
    message: Seq<char>,
    at: int,
)
    requires
        0 <= at,
    ensures
        (forall|k: int| 0 <= k < list.len() ==> text::trimmed(#[trigger] list[k]).len() > 0)
            ==> model::collect(list, entry_step(path, message)) is Ok,
        at < list.len() && (forall|k: int|
            0 <= k < at ==> text::trimmed(#[trigger] list[k]).len() > 0) && text::trimmed(
            list[at],
        ).len() == 0 ==> model::collect(list, entry_step(path, message)) == Err::<
            Seq<Seq<char>>,
            ErrorView,
        >((ErrorView { field_path: pricing_config::at_index(path, at), message })),
{
    let step = entry_step(path, message);
    if forall|k: int| 0 <= k < list.len() ==> text::trimmed(#[trigger] list[k]).len() > 0 {
        assert forall|k: int| 0 <= k < list.len() implies (#[trigger] step(k, list[k])) is Ok by {
            assert(text::trimmed(list[k]).len() > 0);
        }
        model::lemma_collect_all_ok(list, step);
    }
    if at < list.len() && (forall|k: int|
        0 <= k < at ==> text::trimmed(#[trigger] list[k]).len() > 0) && text::trimmed(
        list[at],
    ).len() == 0 {
        assert forall|k: int| 0 <= k < at implies (#[trigger] step(k, list[k])) is Ok by {
            assert(text::trimmed(list[k]).len() > 0);
        }
        model::lemma_collect_first_failure(list, step, at);
    }
}

/// The first place of a source, or of a provider's file, that is not written
/// down is an error, and so is one of the program's own files.
pub proof fn place_error_says_what_is_wrong(
    raw: Seq<char>,
    path: Seq<char>,
    empty: Seq<char>,
    env: EnvView,
)
    ensures
        text::trimmed(raw).len() == 0 ==> location_of(raw, path, empty, env) == Err::<
            Seq<char>,
            ErrorView,
        >((ErrorView { field_path: path, message: empty })),
        text::trimmed(raw).len() == 0 ==> source_location(raw, path, env) == Err::<
            Seq<char>,
            ErrorView,
        >(
            (ErrorView {
                field_path: path,
                message: "a pricing source needs a `file` naming a local price sheet"@,
            }),
        ),
        text::trimmed(raw).len() > 0 && !text::trimmed(raw).contains('/') && !text::trimmed(
            raw,
        ).contains('\\') && text::trimmed(raw)[0] != '~' && guarded(text::trimmed(raw))
            ==> location_of(raw, path, empty, env) == Err::<Seq<char>, ErrorView>(
            (ErrorView {
                field_path: path,
                message: "`"@ + text::trimmed(raw) + "` is jcode's own file in "@ + env.cache_dir
                    + "; choose another name"@,
            }),
        ),
{
}

/// A name that is none of the program's own cache files is not guarded.
pub proof fn other_file_names_are_free(name: Seq<char>)
    requires
        name != "models_dev_pricing.json"@,
        name != "pricing_sources.json"@,
        !text::ends(name, "_models.json"@),
        !text::ends(name, ".json"@) || forall|at: int| !text::occurs_at(name, "_endpoints_"@, at),
        !text::begins(name, "session_search_"@) || !text::ends(name, "_index_v2.bin"@),
    ensures
        !guarded(name),
{
}

/// A currency that is not written down is the dollar.
pub proof fn unwritten_currency_is_the_dollar(written: Seq<char>)
    ensures
        stated_currency(None) == seq!['U', 'S', 'D'],
        stated_currency(Some(written)) == written,
{
    reveal_strlit("USD");
}

/// Each source draws the warnings about its own currency, in the order of the
/// sources.
pub proof fn source_warnings_stand_in_order(
    front: Seq<PricingSourceFileView>,
    last: PricingSourceFileView,
    env: EnvView,
)
    ensures
        ({
            let all = front.push(last);
            source_warnings(all, all.len() as int, env) == source_warnings(
                front,
                front.len() as int,
                env,
            ) + currency_warnings(
                match last.currency {
                    Some(code) => code,
                    None => "USD"@,
                },
                "pricing.sources"@ + "["@ + text::decimal(front.len()) + "]"@ + ".currency"@,
                env,
            )
        }),
        source_warnings(Seq::empty(), 0, env).len() == 0,
{
    lemma_source_warnings_front(front, last, front.len() as int, env);
}

proof fn lemma_source_warnings_front(
    front: Seq<PricingSourceFileView>,
    last: PricingSourceFileView,
    n: int,
    env: EnvView,
)
    requires
        n <= front.len(),
    ensures
        source_warnings(front.push(last), n, env) == source_warnings(front, n, env),
    decreases n,
{
    if n > 0 {
        lemma_source_warnings_front(front, last, n - 1, env);
        assert(front.push(last)[n - 1] == front[n - 1]);
    }
}

} // verus!
