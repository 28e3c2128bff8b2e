//! One-time rewrites of single lines of the config file.
//!
//! A default that was once saved into the file pins its user to it. Each rewrite
//! changes the first line that states the old default and keeps every other
//! character of the file; a marker next to the config sees to it that it happens
//! at most once, so that a user who sets the old value later keeps it.

use crate::config_file::Config;
use crate::model;
use crate::text;
use vstd::prelude::*;

verus! {

/// Which line is rewritten.
#[derive(Debug, Clone, Copy, PartialEq, Eq, Structural)]
pub enum LineRule {
    /// `swarm_spawn_mode` of a visible window becomes `"inline"`.
    SpawnMode,
    /// `idle_animation` that is on is turned off.
    IdleAnimation,
}

pub open spec fn is_quote(c: char) -> bool {
    c == '"' || c == '\''
}

/// A text without quotes at its start.
pub open spec fn unquoted_start(s: Seq<char>) -> Seq<char>
    decreases s.len(),
{
    if s.len() > 0 && is_quote(s[0]) {
        unquoted_start(s.skip(1))
    } else {
        s
    }
}

/// A text without quotes at its end.
pub open spec fn unquoted_end(s: Seq<char>) -> Seq<char>
    decreases s.len(),
{
    if s.len() > 0 && is_quote(s.last()) {
        unquoted_end(s.drop_last())
    } else {
        s
    }
}

/// A text without quotes at either end.
pub open spec fn unquoted(s: Seq<char>) -> Seq<char> {
    unquoted_end(unquoted_start(s))
}

/// What a line states for a key: what follows the equals sign.
pub open spec fn stated(line: Seq<char>, key: Seq<char>) -> Option<Seq<char>> {
    match text::stripped(text::trimmed_start(line), key) {
        Some(rest) => text::stripped(text::trimmed_start(rest), "="@),
        None => None,
    }
}

/// The white space that a line begins with.
pub open spec fn indent(line: Seq<char>) -> Seq<char> {
    line.take(line.len() - text::trimmed_start(line).len())
}

/// The line that takes the place of another, where the rule rewrites it.
pub open spec fn replacement(rule: LineRule, line: Seq<char>) -> Option<Seq<char>> {
    match rule {
        LineRule::SpawnMode => match stated(line, "swarm_spawn_mode"@) {
            Some(rest) => {
                let value = unquoted(text::trimmed(rest));
                if value == "visible"@ || value == "headed"@ {
                    Some(indent(line) + "swarm_spawn_mode = \"inline\""@)
                } else {
                    None
                }
            },
            None => None,
        },
        LineRule::IdleAnimation => match stated(line, "idle_animation"@) {
            Some(rest) => if text::trimmed(rest.take(text::first_index(rest, '#'))) == "true"@ {
                Some(indent(line) + "idle_animation = false"@)
            } else {
                None
            },
            None => None,
        },
    }
}

/// Where the line that begins at `start` ends: at its newline, or at the end of
/// the text.
pub open spec fn line_end(content: Seq<char>, start: int) -> int {
    start + text::first_index(content.skip(start), '\n')
}

/// Where the characters of that line end: before a carriage return that belongs
/// to the newline.
pub open spec fn text_end(content: Seq<char>, start: int) -> int {
    let end = line_end(content, start);
    if start < end < content.len() && content[end - 1] == '\r' {
        end - 1
    } else {
        end
    }
}

/// The text with its first line from `start` on that the rule rewrites
/// rewritten, where there is one.
pub open spec fn rewritten(rule: LineRule, content: Seq<char>, start: int) -> Option<Seq<char>>
    decreases content.len() - start + 1,
{
    if start < 0 || start >= content.len() || !(start <= line_end(content, start)
        <= content.len()) {
        None
    } else {
        let end = text_end(content, start);
        match replacement(rule, content.subrange(start, end)) {
            Some(line) => Some(content.take(start) + line + content.skip(end)),
            None => rewritten(rule, content, line_end(content, start) + 1),
        }
    }
}

fn quote(c: char) -> (r: bool)
    ensures
        r == is_quote(c),
{
    c == '"' || c == '\''
}

fn unquote(s: &str) -> (r: String)
    ensures
        r@ == unquoted(s@),
{
    let x = text::chars_of(s);
    let n: usize = x.len();
    let mut from: usize = 0;
    assert(s@.skip(0) =~= s@);
    while from < n && quote(x[from])
        invariant
            from <= n,
            n == x@.len(),
            x@ == s@,
            unquoted_start(s@) == unquoted_start(s@.skip(from as int)),
        decreases n - from,
    {
        assert(s@.skip(from as int).skip(1) =~= s@.skip(from + 1));
        from += 1;
    }
    let ghost middle = s@.skip(from as int);
    assert(unquoted_start(s@) == middle);
    let mut to: usize = n;
    assert(s@.subrange(from as int, n as int) =~= middle);
    while to > from && quote(x[to - 1])
        invariant
            from <= to <= n,
            n == x@.len(),
            x@ == s@,
            unquoted_end(middle) == unquoted_end(s@.subrange(from as int, to as int)),
        decreases to,
    {
        assert(s@.subrange(from as int, to as int).drop_last() =~= s@.subrange(
            from as int,
            to - 1,
        ));
        assert(s@.subrange(from as int, to as int).last() == s@[to - 1]);
        to -= 1;
    }
    text::text_of(&x, from, to)
}

fn find_stated<'a>(line: &'a str, key: &str) -> (r: Option<&'a str>)
    ensures
        match r {
            Some(rest) => stated(line@, key@) == Some(rest@),
            None => stated(line@, key@) is None,
        },
{
    match text::strip_prefix(text::trim_start(line), key) {
        Some(rest) => text::strip_prefix(text::trim_start(rest), "="),
        None => None,
    }
}

fn indent_of(line: &str) -> (r: String)
    ensures
        r@ == indent(line@),
{
    proof {
        text::lemma_trimmed_start(line@);
    }
    let all = text::chars_of(line);
    let rest = text::chars_of(text::trim_start(line));
    let n: usize = all.len() - rest.len();
    let out = text::text_of(&all, 0, n);
    assert(out@ =~= indent(line@));
    out
}

/// The line that takes the place of another, where the rule rewrites it.
pub fn replace_line(rule: LineRule, line: &str) -> (r: Option<String>)
    ensures
        model::opt_view(r) == replacement(rule, line@),
{
    match rule {
        LineRule::SpawnMode => match find_stated(line, "swarm_spawn_mode") {
            Some(rest) => {
                let value = unquote(text::trim(rest));
                if text::same(value.as_str(), "visible") || text::same(value.as_str(), "headed") {
                    let spaces = indent_of(line);
                    Some(text::join2(spaces.as_str(), "swarm_spawn_mode = \"inline\""))
                } else {
                    None
                }
            },
            None => None,
        },
        LineRule::IdleAnimation => match find_stated(line, "idle_animation") {
            Some(rest) => {
                let letters = text::chars_of(rest);
                let hash: usize = text::find_first(&letters, '#');
                let value = text::text_of(&letters, 0, hash);
                assert(value@ =~= rest@.take(hash as int));
                if text::same(text::trim(value.as_str()), "true") {
                    let spaces = indent_of(line);
                    Some(text::join2(spaces.as_str(), "idle_animation = false"))
                } else {
                    None
                }
            },
            None => None,
        },
    }
}

/// Rewrite the first line of a text that the rule rewrites.
pub fn rewrite(rule: LineRule, content: &str) -> (r: Option<String>)
    ensures
        model::opt_view(r) == rewritten(rule, content@, 0),
{
    let x = text::chars_of(content);
    let n: usize = x.len();
    let mut start: usize = 0;
    while start < n
        invariant
            start <= n,
            n == x@.len(),
            x@ == content@,
            rewritten(rule, content@, 0) == rewritten(rule, content@, start as int),
        decreases n - start,
    {
        let ghost rest = content@.skip(start as int);
        let mut end: usize = start;
        assert(rest.skip(0) =~= rest);
        while end < n && x[end] != '\n'
            invariant
                start <= end <= n,
                n == x@.len(),
                x@ == content@,
                rest == content@.skip(start as int),
                text::first_index(rest, '\n') == (end - start) + text::first_index(
                    rest.skip(end - start),
                    '\n',
                ),
            decreases n - end,
        {
            assert(rest.skip(end - start).skip(1) =~= rest.skip(end - start + 1));
            assert(rest.skip(end - start)[0] == content@[end as int]);
            end += 1;
        }
        assert(end < n ==> rest.skip(end - start)[0] == content@[end as int]);
        assert(line_end(content@, start as int) == end);
        let stop: usize = if start < end && end < n && x[end - 1] == '\r' {
            end - 1
        } else {
            end
        };
        assert(stop == text_end(content@, start as int));
        let line = text::text_of(&x, start, stop);
        if let Some(new_line) = replace_line(rule, line.as_str()) {
            let head = text::text_of(&x, 0, start);
            let tail = text::text_of(&x, stop, n);
            assert(head@ =~= content@.take(start as int));
            assert(tail@ =~= content@.skip(stop as int));
            return Some(text::join3(head.as_str(), new_line.as_str(), tail.as_str()));
        }
        if end >= n {
            assert(rewritten(rule, content@, end + 1) is None);
            return None;
        }
        start = end + 1;
    }
    None
}

/// What a one-time rewrite asks for.
#[derive(Debug, PartialEq, Eq)]
pub enum Migration {
    /// It happened before: do nothing.
    Done,
    /// There is nothing to rewrite: write the marker.
    MarkOnly,
    /// Write this text, then the marker.
    Rewrite(String),
}

pub enum MigrationView {
    Done,
    MarkOnly,
    Rewrite(Seq<char>),
}

impl View for Migration {
    type V = MigrationView;

    open spec fn view(&self) -> MigrationView {
        match self {
            Migration::Done => MigrationView::Done,
            Migration::MarkOnly => MigrationView::MarkOnly,
            Migration::Rewrite(content) => MigrationView::Rewrite(content@),
        }
    }
}

/// What a one-time rewrite asks for, by whether its marker is there and the text
/// of the file, where there is one.
pub open spec fn migration(rule: LineRule, marked: bool, content: Option<Seq<char>>) -> MigrationView {
    if marked {
        MigrationView::Done
    } else {
        match content {
            Some(content) => match rewritten(rule, content, 0) {
                Some(after) => MigrationView::Rewrite(after),
                None => MigrationView::MarkOnly,
            },
            None => MigrationView::MarkOnly,
        }
    }
}

fn migrate(rule: LineRule, marked: bool, content: &Option<String>) -> (r: Migration)
    ensures
        r@ == migration(rule, marked, model::opt_view(*content)),
{
    if marked {
        return Migration::Done;
    }
    match content {
        Some(content) => match rewrite(rule, content.as_str()) {
            Some(after) => Migration::Rewrite(after),
            None => Migration::MarkOnly,
        },
        None => Migration::MarkOnly,
    }
}

impl Config {
    /// One-time migration of a saved `swarm_spawn_mode = "visible"` to
    /// `"inline"`.
    pub fn migrate_legacy_swarm_spawn_mode_once(marked: bool, content: &Option<String>) -> (r:
        Migration)
        ensures
            r@ == migration(LineRule::SpawnMode, marked, model::opt_view(*content)),
    {
        migrate(LineRule::SpawnMode, marked, content)
    }

    /// One-time migration of a saved `idle_animation = true` to `false`.
    pub fn migrate_idle_animation_off_once(marked: bool, content: &Option<String>) -> (r: Migration)
        ensures
            r@ == migration(LineRule::IdleAnimation, marked, model::opt_view(*content)),
    {
        migrate(LineRule::IdleAnimation, marked, content)
    }
}

/// Exactly one line is rewritten: the characters before it and after it, its
/// newline among them, are the same as before. What is rewritten begins where a
/// line begins and holds no newline.
pub proof fn one_line_is_rewritten(rule: LineRule, content: Seq<char>, start: int) -> (r: (int, int))
    requires
        0 <= start,
        rewritten(rule, content, start) is Some,
    ensures
        start <= r.0 <= r.1 <= content.len(),
        r.0 == start || content[r.0 - 1] == '\n',
        !content.subrange(r.0, r.1).contains('\n'),
        replacement(rule, content.subrange(r.0, r.1)) is Some,
        rewritten(rule, content, start) == Some(
            content.take(r.0) + replacement(rule, content.subrange(r.0, r.1))->Some_0
                + content.skip(r.1),
        ),
    decreases content.len() - start + 1,
{
    text::lemma_first_index(content.skip(start), '\n');
    let end = text_end(content, start);
    match replacement(rule, content.subrange(start, end)) {
        Some(line) => (start, end),
        None => one_line_is_rewritten(rule, content, line_end(content, start) + 1),
    }
}

/// A rewrite that has its marker does nothing, whatever the file says: a user
/// who sets the old value later keeps it.
pub proof fn migration_happens_at_most_once(rule: LineRule, content: Option<Seq<char>>)
    ensures
        migration(rule, true, content) is Done,
{
}

proof fn lemma_indent(line: Seq<char>)
    ensures
        forall|k: int| 0 <= k < indent(line).len() ==> text::is_white_space(
            #[trigger] indent(line)[k],
        ),
    decreases line.len(),
{
    text::lemma_trimmed_start(line);
    if line.len() > 0 && text::is_white_space(line[0]) {
        let rest = line.skip(1);
        lemma_indent(rest);
        text::lemma_trimmed_start(rest);
        assert(indent(line) =~= seq![line[0]] + indent(rest));
        assert forall|k: int| 0 <= k < indent(line).len() implies text::is_white_space(
            #[trigger] indent(line)[k],
        ) by {
            if k > 0 {
                assert(indent(line)[k] == indent(rest)[k - 1]);
            }
        }
    } else {
        assert(indent(line).len() == 0);
    }
}

proof fn lemma_trim_indent(spaces: Seq<char>, words: Seq<char>)
    requires
        forall|k: int| 0 <= k < spaces.len() ==> text::is_white_space(#[trigger] spaces[k]),
        words.len() > 0,
        !text::is_white_space(words[0]),
    ensures
        text::trimmed_start(spaces + words) == words,
    decreases spaces.len(),
{
    if spaces.len() == 0 {
        assert(spaces + words =~= words);
    } else {
        let rest = spaces.skip(1);
        assert forall|k: int| 0 <= k < rest.len() implies text::is_white_space(
            #[trigger] rest[k],
        ) by {
            assert(rest[k] == spaces[k + 1]);
        }
        lemma_trim_indent(rest, words);
        assert((spaces + words)[0] == spaces[0]);
        assert((spaces + words).skip(1) =~= rest + words);
    }
}

/// A line that was rewritten is not rewritten again.
pub proof fn rewritten_line_stays(rule: LineRule, line: Seq<char>)
    requires
        replacement(rule, line) is Some,
    ensures
        replacement(rule, replacement(rule, line)->Some_0) is None,
{
    lemma_indent(line);
    let new_line = replacement(rule, line)->Some_0;
    reveal_strlit("=");
    match rule {
        LineRule::SpawnMode => {
            reveal_strlit("swarm_spawn_mode = \"inline\"");
            reveal_strlit("swarm_spawn_mode");
            reveal_strlit("visible");
            reveal_strlit("headed");
            let words = "swarm_spawn_mode = \"inline\""@;
            lemma_trim_indent(indent(line), words);
            assert(words.take(16) =~= "swarm_spawn_mode"@);
            let rest = words.skip(16);
            assert(rest.skip(1)[0] == '=');
            assert(text::trimmed_start(rest) == rest.skip(1)) by {
                reveal_with_fuel(text::trimmed_start, 2);
            }
            assert(rest.skip(1).take(1) =~= "="@);
            let value = rest.skip(1).skip(1);
            assert(stated(new_line, "swarm_spawn_mode"@) == Some(value));
            let word = value.skip(1);
            assert(text::trimmed_start(value) == word) by {
                reveal_with_fuel(text::trimmed_start, 2);
            }
            assert(text::trimmed(value) == word);
            let start = word.skip(1);
            assert(start.len() == 7);
            assert(unquoted_start(word) == start) by {
                reveal_with_fuel(unquoted_start, 2);
            }
            let end = start.drop_last();
            assert(unquoted_end(start) == end) by {
                reveal_with_fuel(unquoted_end, 2);
            }
            assert(end.len() == 6);
            assert(end[0] == 'i');
            assert("visible"@.len() == 7);
            assert("headed"@[0] == 'h');
        },
        LineRule::IdleAnimation => {
            reveal_strlit("idle_animation = false");
            reveal_strlit("idle_animation");
            reveal_strlit("true");
            let words = "idle_animation = false"@;
            lemma_trim_indent(indent(line), words);
            assert(words.take(14) =~= "idle_animation"@);
            let rest = words.skip(14);
            assert(rest.skip(1)[0] == '=');
            assert(text::trimmed_start(rest) == rest.skip(1)) by {
                reveal_with_fuel(text::trimmed_start, 2);
            }
            assert(rest.skip(1).take(1) =~= "="@);
            let value = rest.skip(1).skip(1);
            assert(stated(new_line, "idle_animation"@) == Some(value));
            text::lemma_first_index(value, '#');
            assert(value.len() == 6);
            assert(!value.contains('#'));
            assert(value.take(text::first_index(value, '#')) =~= value);
            let word = value.skip(1);
            assert(text::trimmed_start(value) == word) by {
                reveal_with_fuel(text::trimmed_start, 2);
            }
            assert(text::trimmed(value) == word);
            assert(word.len() == 5);
        },
    }
}

/// Quotes of either kind are taken off both ends, all of them, and nothing
/// else.
pub proof fn quotes_are_taken_off_both_ends(left: Seq<char>, core: Seq<char>, right: Seq<char>)
    requires
        forall|i: int| 0 <= i < left.len() ==> (#[trigger] left[i]) == '"' || left[i] == '\'',
        forall|i: int| 0 <= i < right.len() ==> (#[trigger] right[i]) == '"' || right[i] == '\'',
        core.len() > 0,
        core[0] != '"' && core[0] != '\'',
        core.last() != '"' && core.last() != '\'',
    ensures
        unquoted(left + core + right) == core,
{
    lemma_unquote_start(left, core + right);
    lemma_unquote_end(core, right);
    assert(left + core + right =~= left + (core + right));
}

proof fn lemma_unquote_start(left: Seq<char>, rest: Seq<char>)
    requires
        forall|i: int| 0 <= i < left.len() ==> (#[trigger] left[i]) == '"' || left[i] == '\'',
        rest.len() > 0,
        rest[0] != '"' && rest[0] != '\'',
    ensures
        unquoted_start(left + rest) == rest,
    decreases left.len(),
{
    let s = left + rest;
    if left.len() == 0 {
        assert(s =~= rest);
    } else {
        assert(s[0] == left[0]);
        assert(s.skip(1) =~= left.skip(1) + rest);
        assert forall|i: int| 0 <= i < left.skip(1).len() implies (#[trigger] left.skip(1)[i])
            == '"' || left.skip(1)[i] == '\'' by {
            assert(left.skip(1)[i] == left[i + 1]);
        }
        lemma_unquote_start(left.skip(1), rest);
    }
}

proof fn lemma_unquote_end(rest: Seq<char>, right: Seq<char>)
    requires
        forall|i: int| 0 <= i < right.len() ==> (#[trigger] right[i]) == '"' || right[i] == '\'',
        rest.len() > 0,
        rest.last() != '"' && rest.last() != '\'',
    ensures
        unquoted_end(rest + right) == rest,
    decreases right.len(),
{
    let s = rest + right;
    if right.len() == 0 {
        assert(s =~= rest);
    } else {
        assert(s.last() == right.last());
        assert(s.drop_last() =~= rest + right.drop_last());
        lemma_unquote_end(rest, right.drop_last());
    }
}

/// Whether a text is white space throughout.
pub open spec fn blank(s: Seq<char>) -> bool {
    forall|i: int| 0 <= i < s.len() ==> text::is_white_space(#[trigger] s[i])
}

/// A line states a key when it is the key and an equals sign, with white space
/// before either of them; what it states is the rest of the line.
pub proof fn line_states_what_follows_the_equals_sign(
    margin: Seq<char>,
    key: Seq<char>,
    gap: Seq<char>,
    rest: Seq<char>,
)
    requires
        blank(margin),
        blank(gap),
        key.len() > 0,
        !text::is_white_space(key[0]),
    ensures
        stated(margin + key + gap + seq!['='] + rest, key) == Some(rest),
        indent(margin + key + gap + seq!['='] + rest) == margin,
{
    reveal_strlit("=");
    let line = margin + key + gap + seq!['='] + rest;
    let behind = gap + (seq!['='] + rest);
    assert(line =~= margin + (key + behind));
    lemma_trim_indent(margin, key + behind);
    text::parts_are_found_again(key, behind);
    lemma_trim_indent(gap, seq!['='] + rest);
    assert(seq!['='] =~= "="@);
    text::parts_are_found_again("="@, rest);
    assert(line.take(margin.len() as int) =~= margin);
}

/// A spawn mode of a visible window, in quotes of either kind, becomes the
/// inline one, with the indent that it had.
pub proof fn visible_spawn_mode_becomes_inline(
    margin: Seq<char>,
    gap: Seq<char>,
    before: Seq<char>,
    value: Seq<char>,
    after: Seq<char>,
    quote: char,
)
    requires
        blank(margin),
        blank(gap),
        blank(before),
        blank(after),
        quote == '"' || quote == '\'',
        value.len() > 0,
        value[0] != '"' && value[0] != '\'' && value.last() != '"' && value.last() != '\'',
    ensures
        ({
            let line = margin + "swarm_spawn_mode"@ + gap + seq!['='] + (before + (seq![quote]
                + value + seq![quote]) + after);
            &&& value == "visible"@ || value == "headed"@ ==> replacement(
                LineRule::SpawnMode,
                line,
            ) == Some(margin + "swarm_spawn_mode = \"inline\""@)
            &&& value != "visible"@ && value != "headed"@ ==> replacement(
                LineRule::SpawnMode,
                line,
            ) is None
        }),
{
    reveal_strlit("swarm_spawn_mode");
    let rest = before + (seq![quote] + value + seq![quote]) + after;
    line_states_what_follows_the_equals_sign(margin, "swarm_spawn_mode"@, gap, rest);
    text::trimming_takes_the_margins_away(before, seq![quote] + value + seq![quote], after);
    quotes_are_taken_off_both_ends(seq![quote], value, seq![quote]);
}

/// An idle animation that is on is turned off, with the indent that it had and
/// whatever comment was behind it.
pub proof fn idle_animation_is_turned_off(
    margin: Seq<char>,
    gap: Seq<char>,
    before: Seq<char>,
    value: Seq<char>,
    after: Seq<char>,
    comment: Seq<char>,
)
    requires
        blank(margin),
        blank(gap),
        blank(before),
        blank(after),
        value.len() > 0,
        !text::is_white_space(value[0]),
        !text::is_white_space(value.last()),
        !value.contains('#'),
        comment.len() > 0 ==> comment[0] == '#',
    ensures
        ({
            let line = margin + "idle_animation"@ + gap + seq!['='] + (before + value + after
                + comment);
            &&& value == "true"@ ==> replacement(LineRule::IdleAnimation, line) == Some(
                margin + "idle_animation = false"@,
            )
            &&& value != "true"@ ==> replacement(LineRule::IdleAnimation, line) is None
        }),
{
    reveal_strlit("idle_animation");
    let front = before + value + after;
    let rest = front + comment;
    line_states_what_follows_the_equals_sign(margin, "idle_animation"@, gap, rest);
    text::lemma_first_index(rest, '#');
    let at = text::first_index(rest, '#');
    assert forall|k: int| 0 <= k < front.len() implies front[k] != '#' by {
        if k < before.len() {
            assert(front[k] == before[k]);
        } else if k < before.len() + value.len() {
            assert(front[k] == value[k - before.len()]);
        } else {
            assert(front[k] == after[k - before.len() - value.len()]);
        }
    }
    assert(at >= front.len()) by {
        if at < front.len() {
            assert(rest[at] == front[at]);
        }
    }
    assert(at == front.len()) by {
        if comment.len() > 0 {
            assert(rest[front.len() as int] == comment[0]);
        }
    }
    assert(rest.take(at) =~= front);
    text::trimming_takes_the_margins_away(before, value, after);
}

/// A line that does not state the key of a rewrite is not rewritten.
pub proof fn other_lines_are_left_alone(line: Seq<char>)
    ensures
        stated(line, "swarm_spawn_mode"@) is None ==> replacement(LineRule::SpawnMode, line) is None,
        stated(line, "idle_animation"@) is None ==> replacement(LineRule::IdleAnimation, line) is None,
        !text::begins(text::trimmed_start(line), "swarm_spawn_mode"@) ==> stated(
            line,
            "swarm_spawn_mode"@,
        ) is None,
        !text::begins(text::trimmed_start(line), "idle_animation"@) ==> stated(
            line,
            "idle_animation"@,
        ) is None,
{
}

proof fn lemma_rewritten_behind(rule: LineRule, front: Seq<char>, rest: Seq<char>, from: int)
    requires
        0 <= from,
    ensures
        rewritten(rule, front + rest, front.len() + from) == match rewritten(rule, rest, from) {
            Some(after) => Some(front + after),
            None => None,
        },
    decreases rest.len() - from + 1,
{
    let all = front + rest;
    let start = front.len() + from;
    if from < rest.len() {
        assert(all.skip(start) =~= rest.skip(from));
        text::lemma_first_index(rest.skip(from), '\n');
        let end = line_end(rest, from);
        assert(line_end(all, start) == front.len() + end);
        if from < end {
            assert(all[front.len() + end - 1] == rest[end - 1]);
        }
        let cut = text_end(rest, from);
        assert(text_end(all, start) == front.len() + cut);
        assert(all.subrange(start, front.len() + cut) =~= rest.subrange(from, cut));
        match replacement(rule, rest.subrange(from, cut)) {
            Some(line) => {
                assert(all.take(start) + line + all.skip(front.len() + cut) =~= front + (rest.take(
                    from,
                ) + line + rest.skip(cut)));
            },
            None => {
                lemma_rewritten_behind(rule, front, rest, end + 1);
            },
        }
    }
}

/// Lines are looked at from the first on, and only the first that a rewrite
/// applies to is replaced. What is not replaced, line endings of either kind
/// among it, stays.
pub proof fn first_line_that_applies_is_rewritten(
    rule: LineRule,
    line: Seq<char>,
    ending: Seq<char>,
    rest: Seq<char>,
)
    requires
        !line.contains('\n'),
        ending == seq!['\r', '\n'] || (ending == seq!['\n'] && (line.len() == 0 || line.last()
            != '\r')),
    ensures
        match replacement(rule, line) {
            Some(new_line) => rewritten(rule, line + ending + rest, 0) == Some(
                new_line + ending + rest,
            ),
            None => rewritten(rule, line + ending + rest, 0) == match rewritten(rule, rest, 0) {
                Some(after) => Some(line + ending + after),
                None => None,
            },
        },
{
    let content = line + ending + rest;
    let at = line.len() + ending.len() - 1;
    assert(content.skip(0) =~= content);
    text::lemma_first_index(content, '\n');
    assert(content[at] == '\n');
    assert(content.contains('\n'));
    let found = text::first_index(content, '\n');
    assert(found == at) by {
        if found < at {
            if found < line.len() {
                assert(content[found] == line[found]);
                assert(line.contains('\n'));
            } else {
                assert(content[found] == ending[found - line.len()]);
            }
        }
    }
    if ending == seq!['\r', '\n'] {
        assert(content[at - 1] == ending[0]);
    } else if line.len() > 0 {
        assert(content[at - 1] == line.last());
    }
    assert(text_end(content, 0) == line.len());
    assert(content.subrange(0, line.len() as int) =~= line);
    match replacement(rule, line) {
        Some(new_line) => {
            assert(content.take(0) + new_line + content.skip(line.len() as int) =~= new_line
                + ending + rest);
        },
        None => {
            lemma_rewritten_behind(rule, line + ending, rest, 0);
            assert(rewritten(rule, content, at + 1) == rewritten(
                rule,
                line + ending + rest,
                (line + ending).len() as int,
            ));
        },
    }
}

/// The last line is looked at too, though no newline ends it; after it nothing
/// is left to rewrite.
pub proof fn last_line_is_looked_at(rule: LineRule, line: Seq<char>)
    requires
        line.len() > 0,
        !line.contains('\n'),
    ensures
        rewritten(rule, line, 0) == replacement(rule, line),
        rewritten(rule, Seq::empty(), 0) is None,
{
    assert(line.skip(0) =~= line);
    text::lemma_first_index(line, '\n');
    assert(line.subrange(0, line.len() as int) =~= line);
    assert(text_end(line, 0) == line.len());
    assert(rewritten(rule, line, line.len() as int + 1) is None);
    if let Some(new_line) = replacement(rule, line) {
        assert(line.take(0) + new_line + line.skip(line.len() as int) =~= new_line);
    }
}

/// Without its marker a migration writes what the rewrite gives, and where there
/// is no file or nothing to rewrite only the marker.
pub proof fn unmarked_migration_writes_the_rewrite(rule: LineRule, content: Seq<char>)
    ensures
        migration(rule, false, None) is MarkOnly,
        rewritten(rule, content, 0) is None ==> migration(rule, false, Some(content)) is MarkOnly,
        rewritten(rule, content, 0) is Some ==> migration(rule, false, Some(content))
            == MigrationView::Rewrite(rewritten(rule, content, 0)->Some_0),
{
}

} // verus!
