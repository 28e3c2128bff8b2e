//! Paths as texts whose components are separated by `/`.

use crate::text;
use vstd::prelude::*;

verus! {

/// `name` below the directory `dir`; an absolute `name` stands for itself.
pub open spec fn joined(dir: Seq<char>, name: Seq<char>) -> Seq<char> {
    if name.len() > 0 && name[0] == '/' {
        name
    } else if dir.len() == 0 || dir.last() == '/' {
        dir + name
    } else {
        dir + "/"@ + name
    }
}

/// `path` without what does not count as its last component: separators and
/// `.` components at the end.
pub open spec fn without_tail(path: Seq<char>) -> Seq<char>
    decreases path.len(),
{
    if path.len() > 0 && path.last() == '/' {
        without_tail(path.drop_last())
    } else if path.len() >= 2 && path.last() == '.' && path[path.len() - 2] == '/' {
        without_tail(path.drop_last())
    } else {
        path
    }
}

/// The last component of `path`, if it names a file: it is neither missing nor
/// `.` nor `..`.
pub open spec fn file_name(path: Seq<char>) -> Option<Seq<char>> {
    let body = without_tail(path);
    let name = body.skip(text::last_index(body, '/') + 1);
    if name.len() == 0 || name == seq!['.'] || name == seq!['.', '.'] {
        None
    } else {
        Some(name)
    }
}

/// The file name up to its last `.`; a name without one, or with one only at
/// its start, is the stem as it is.
pub open spec fn stem_of(name: Seq<char>) -> Seq<char> {
    if text::last_index(name, '.') <= 0 {
        name
    } else {
        name.take(text::last_index(name, '.'))
    }
}

/// The stem of the file name of `path`.
pub open spec fn file_stem(path: Seq<char>) -> Option<Seq<char>> {
    match file_name(path) {
        Some(name) => Some(stem_of(name)),
        None => None,
    }
}

pub fn join_path(dir: &str, name: &str) -> (r: String)
    ensures
        r@ == joined(dir@, name@),
{
    let n = text::chars_of(name);
    let d = text::chars_of(dir);
    if n.len() > 0 && n[0] == '/' {
        text::owned(name)
    } else if d.len() == 0 || d[d.len() - 1] == '/' {
        text::join2(dir, name)
    } else {
        text::join3(dir, "/", name)
    }
}

fn tail_cut(x: &Vec<char>) -> (r: usize)
    ensures
        r <= x@.len(),
        x@.take(r as int) == without_tail(x@),
{
    let mut i: usize = x.len();
    assert(x@.take(i as int) =~= x@);
    while i > 0 && (x[i - 1] == '/' || (i >= 2 && x[i - 1] == '.' && x[i - 2] == '/'))
        invariant
            i <= x@.len(),
            without_tail(x@.take(i as int)) == without_tail(x@),
        decreases i,
    {
        assert(x@.take(i as int).drop_last() =~= x@.take(i - 1));
        i -= 1;
    }
    i
}

fn slice_chars(x: &Vec<char>, from: usize, to: usize) -> (r: Vec<char>)
    requires
        from <= to <= x@.len(),
    ensures
        r@ == x@.subrange(from as int, to as int),
{
    let mut out: Vec<char> = Vec::new();
    let mut i: usize = from;
    while i < to
        invariant
            from <= i <= to <= x@.len(),
            out@ == x@.subrange(from as int, i as int),
        decreases to - i,
    {
        out.push(x[i]);
        i += 1;
        assert(x@.subrange(from as int, i as int) =~= x@.subrange(from as int, i - 1).push(
            x@[i - 1],
        ));
    }
    out
}

/// The stem of the file name of `path`, if `path` names a file.
pub fn path_stem(path: &str) -> (r: Option<String>)
    ensures
        match r {
            Some(stem) => file_stem(path@) == Some(stem@),
            None => file_stem(path@) is None,
        },
{
    let x = text::chars_of(path);
    let cut: usize = tail_cut(&x);
    let body = slice_chars(&x, 0, cut);
    assert(body@ =~= without_tail(path@));
    let start: usize = match text::find_last(&body, '/') {
        Some(i) => i + 1,
        None => 0,
    };
    let name = slice_chars(&body, start, body.len());
    assert(name@ =~= body@.skip(text::last_index(body@, '/') + 1));
    assert(name.len() == 1 && name@[0] == '.' ==> name@ =~= seq!['.']);
    assert(name.len() == 2 && name@[0] == '.' && name@[1] == '.' ==> name@ =~= seq!['.', '.']);
    if name.len() == 0 || (name.len() == 1 && name[0] == '.') || (name.len() == 2 && name[0] == '.'
        && name[1] == '.') {
        return None;
    }
    let end: usize = match text::find_last(&name, '.') {
        Some(i) => if i == 0 {
            name.len()
        } else {
            i
        },
        None => name.len(),
    };
    assert(name@.subrange(0, end as int) =~= stem_of(name@));
    Some(text::text_of(&name, 0, end))
}

/// A name is put into a directory behind exactly one slash. A name that begins
/// with one stands for itself, and a directory without a name is the name's.
pub proof fn name_stands_behind_one_slash(dir: Seq<char>, name: Seq<char>)
    ensures
        name.len() > 0 && name[0] == '/' ==> joined(dir, name) == name,
        !(name.len() > 0 && name[0] == '/') && dir.len() == 0 ==> joined(dir, name) == name,
        !(name.len() > 0 && name[0] == '/') && dir.len() > 0 ==> {
            &&& text::begins(joined(dir, name), dir)
            &&& text::ends(joined(dir, name), name)
            &&& joined(dir, name)[joined(dir, name).len() - name.len() - 1] == '/'
            &&& dir.last() == '/' ==> joined(dir, name).len() == dir.len() + name.len()
            &&& dir.last() != '/' ==> joined(dir, name).len() == dir.len() + 1 + name.len()
        },
{
    reveal_strlit("/");
    text::parts_are_found_again(dir, name);
    text::parts_are_found_again(dir + "/"@, name);
    text::parts_are_found_again(dir, "/"@ + name);
    assert(dir + "/"@ + name =~= dir + ("/"@ + name));
    if dir.len() == 0 {
        assert(dir + name =~= name);
    }
}

/// The stem of a file is its name up to the last dot, or the whole name where no
/// dot stands behind its first character.
pub proof fn stem_ends_at_the_last_dot(dir: Seq<char>, stem: Seq<char>, extension: Seq<char>)
    requires
        stem.len() > 0,
        !stem.contains('/'),
        !extension.contains('/'),
        !extension.contains('.'),
        extension.len() > 0,
    ensures
        file_stem(dir + seq!['/'] + stem + seq!['.'] + extension) == Some(stem),
        file_stem(stem + seq!['.'] + extension) == Some(stem),
        !stem.contains('.') ==> file_stem(dir + seq!['/'] + stem) == Some(stem),
{
    let name = stem + seq!['.'] + extension;
    let full = dir + seq!['/'] + name;
    assert(dir + seq!['/'] + stem + seq!['.'] + extension =~= full);
    assert(full.last() == extension.last());
    assert(extension.contains(extension.last()));
    assert(name.last() == extension.last());
    lemma_no_slash(stem, extension);
    lemma_behind_last(dir, '/', name);
    assert(full.skip(dir.len() as int + 1) =~= name);
    text::last_place_has_none_after_it(name, '/');
    if text::last_index(name, '/') >= 0 {
        assert(name.contains('/'));
    }
    assert(name.skip(0) =~= name);
    lemma_behind_last(stem, '.', extension);
    assert(name.take(stem.len() as int) =~= stem);
    assert(name.len() >= 3);
    if !stem.contains('.') {
        let short = dir + seq!['/'] + stem;
        assert(stem.contains(stem.last()));
        assert(short.last() == stem.last());
        lemma_behind_last(dir, '/', stem);
        assert(short.skip(dir.len() as int + 1) =~= stem);
        text::last_place_has_none_after_it(stem, '.');
        assert(stem[0] != '.') by {
            assert(stem.contains(stem[0]));
        }
        assert(seq!['.'][0] == '.');
        assert(seq!['.', '.'][0] == '.');
    }
}

proof fn lemma_no_slash(stem: Seq<char>, extension: Seq<char>)
    requires
        !stem.contains('/'),
        !extension.contains('/'),
    ensures
        !(stem + seq!['.'] + extension).contains('/'),
{
    let name = stem + seq!['.'] + extension;
    if name.contains('/') {
        let k = choose|k: int| 0 <= k < name.len() && name[k] == '/';
        if k < stem.len() {
            assert(stem[k] == '/');
        } else if k > stem.len() {
            assert(extension[k - stem.len() - 1] == '/');
        }
    }
}

proof fn lemma_behind_last(front: Seq<char>, c: char, back: Seq<char>)
    ensures
        !back.contains(c) ==> text::last_index(front + seq![c] + back, c) == front.len(),
{
    let s = front + seq![c] + back;
    text::last_place_has_none_after_it(s, c);
    assert(s[front.len() as int] == c);
    let at = text::last_index(s, c);
    if at > front.len() {
        assert(s[at] == back[at - front.len() - 1]);
        assert(back.contains(c));
    }
}

} // verus!
