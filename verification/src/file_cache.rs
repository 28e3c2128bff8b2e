//! Copies of price files: when a copy may be used, when its file is read, and
//! when a file that failed is left alone.

use crate::model;
use crate::text;
use vstd::prelude::*;
use vstd::string::StringSliceAdditionalSpecFns;

verus! {

/// How long a file that just failed is left alone before it is tried again.
pub const FAILURE_BACKOFF_SECS: u64 = 60;

/// A price file that decides what money is spent is not read without a bound.
pub const MAX_FILE_BYTES: u64 = 33_554_432;

/// What "the same local file" means: modification time plus size.
#[derive(Debug, Clone, Copy, PartialEq, Eq, Structural)]
pub struct FileFingerprint {
    pub mtime_nanos: u64,
    pub size: u64,
}

/// A copy of a file's contents, and what it was read from.
#[derive(Debug, Clone)]
pub struct FileCopy<T> {
    /// The path this copy came from. A copy of another path is no copy.
    pub location: String,
    pub fetched_at_unix_secs: u64,
    /// The version of the file this copy was read from.
    pub fingerprint: Option<FileFingerprint>,
    pub contents: T,
}

#[verifier::ext_equal]
pub struct CopyView<V> {
    pub location: Seq<char>,
    pub fetched_at_unix_secs: u64,
    pub fingerprint: Option<FileFingerprint>,
    pub contents: V,
}

impl<T: View> View for FileCopy<T> {
    type V = CopyView<T::V>;

    open spec fn view(&self) -> CopyView<T::V> {
        CopyView {
            location: self.location@,
            fetched_at_unix_secs: self.fetched_at_unix_secs,
            fingerprint: self.fingerprint,
            contents: self.contents@,
        }
    }
}

/// The copies of files and the failures to read them, by the name of the source
/// or vendor that points at the file.
#[derive(Debug)]
pub struct FileRegistry<T> {
    pub copies: Vec<(String, FileCopy<T>)>,
    /// When each last failed.
    pub failures: Vec<(String, u64)>,
}

/// What to do about a file before a lookup.
#[derive(Debug, Clone, Copy, PartialEq, Eq, Structural)]
pub enum FileStep {
    /// The copy describes the file as it is: use it.
    Use,
    /// The file failed a moment ago: leave it alone, and do without.
    Wait,
    /// Read the file.
    Read,
}

/// Whether a copy describes what is at `path`, whose version is `current`.
pub open spec fn fresh<V>(
    copy: Option<CopyView<V>>,
    path: Seq<char>,
    current: Option<FileFingerprint>,
) -> bool {
    copy is Some && copy->Some_0.location == path && current is Some && copy->Some_0.fingerprint
        == current
}

/// Whether a failure is recent enough to leave the file alone.
pub open spec fn in_backoff(failed_at: Option<u64>, now: u64) -> bool {
    failed_at is Some && (now < failed_at->Some_0 || now - failed_at->Some_0
        < FAILURE_BACKOFF_SECS)
}

impl<T: View> FileRegistry<T> {
    /// Each name has one copy and one failure at most.
    pub open spec fn wf(self) -> bool {
        model::distinct_keys(model::keyed_view(self.copies@)) && model::distinct_keys(
            model::keyed(self.failures@),
        )
    }

    /// The copy that is kept under a name.
    pub open spec fn copy_of(self, id: Seq<char>) -> Option<CopyView<T::V>> {
        model::get(model::keyed_view(self.copies@), id)
    }

    /// When the file under a name last failed.
    pub open spec fn failure_of(self, id: Seq<char>) -> Option<u64> {
        model::get(model::keyed(self.failures@), id)
    }

    /// What to do about the file of `id` before a lookup.
    pub open spec fn step(
        self,
        id: Seq<char>,
        path: Seq<char>,
        current: Option<FileFingerprint>,
        now: u64,
    ) -> FileStep {
        if fresh(self.copy_of(id), path, current) {
            FileStep::Use
        } else if in_backoff(self.failure_of(id), now) {
            FileStep::Wait
        } else {
            FileStep::Read
        }
    }

    pub fn new() -> (r: Self)
        ensures
            r.copies@.len() == 0,
            r.failures@.len() == 0,
            r.wf(),
    {
        FileRegistry { copies: Vec::new(), failures: Vec::new() }
    }

    /// True while a file that recently failed is being left alone.
    pub fn is_in_backoff(&self, id: &str, now_unix_secs: u64) -> (r: bool)
        ensures
            r == in_backoff(self.failure_of(id@), now_unix_secs),
    {
        match model::find(&self.failures, id) {
            Some(failed_at) => now_unix_secs < *failed_at || now_unix_secs - *failed_at
                < FAILURE_BACKOFF_SECS,
            None => false,
        }
    }

    /// What to do about the file at `path` before a lookup. `current` is its
    /// version, where it can be told.
    pub fn plan(
        &self,
        id: &str,
        path: &str,
        current: Option<FileFingerprint>,
        now_unix_secs: u64,
    ) -> (r: FileStep)
        ensures
            r == self.step(id@, path@, current, now_unix_secs),
    {
        if let Some(copy) = model::find_view(&self.copies, id) {
            if let Some(version) = current {
                if text::same(copy.location.as_str(), path) && copy.fingerprint == Some(version) {
                    return FileStep::Use;
                }
            }
        }
        if self.is_in_backoff(id, now_unix_secs) {
            FileStep::Wait
        } else {
            FileStep::Read
        }
    }

    /// The contents of the copy under a name.
    pub fn contents<'a>(&'a self, id: &str) -> (r: Option<&'a T>)
        ensures
            match r {
                Some(contents) => self.copy_of(id@) is Some && self.copy_of(
                    id@,
                )->Some_0.contents == contents@,
                None => self.copy_of(id@) is None,
            },
    {
        match model::find_view(&self.copies, id) {
            Some(copy) => Some(&copy.contents),
            None => None,
        }
    }

    /// Record that the file of `id` could not be read.
    pub fn note_failure(&mut self, id: &str, now_unix_secs: u64)
        ensures
            final(self).copies@ == old(self).copies@,
            model::keyed(final(self).failures@) == model::put_in(
                model::keyed(old(self).failures@),
                id@,
                now_unix_secs,
            ),
            old(self).wf() ==> final(self).wf(),
    {
        proof {
            if self.wf() {
                model::put_keeps_keys_distinct(
                    model::keyed(self.failures@),
                    id@,
                    now_unix_secs,
                );
            }
        }
        model::put_plain(&mut self.failures, id, now_unix_secs);
    }

    /// Store a freshly read file in place of the copy that was there, and
    /// forget that it failed.
    pub fn store(
        &mut self,
        id: &str,
        path: &str,
        fingerprint: Option<FileFingerprint>,
        contents: T,
        now_unix_secs: u64,
    )
        ensures
            model::keyed(final(self).failures@) == model::taken_from(
                model::keyed(old(self).failures@),
                id@,
            ),
            model::keyed_view(final(self).copies@) == model::put_in(
                model::keyed_view(old(self).copies@),
                id@,
                CopyView {
                    location: path@,
                    fetched_at_unix_secs: now_unix_secs,
                    fingerprint,
                    contents: contents@,
                },
            ),
            old(self).wf() ==> final(self).wf(),
    {
        proof {
            if self.wf() {
                model::take_keeps_keys_distinct(model::keyed(self.failures@), id@);
                model::put_keeps_keys_distinct(
                    model::keyed_view(self.copies@),
                    id@,
                    CopyView {
                        location: path@,
                        fetched_at_unix_secs: now_unix_secs,
                        fingerprint,
                        contents: contents@,
                    },
                );
            }
        }
        model::take_plain(&mut self.failures, id);
        let copy = FileCopy {
            location: text::owned(path),
            fetched_at_unix_secs: now_unix_secs,
            fingerprint,
            contents,
        };
        model::put(&mut self.copies, id, copy);
    }
}

/// Right after a file was read its copy is used as long as the file stays the
/// version it was: an edit, or a config that points elsewhere, ends that. The
/// copies of other files are as they were.
pub proof fn stored_copy_is_used_until_the_file_changes<T: View>(
    before: FileRegistry<T>,
    after: FileRegistry<T>,
    id: Seq<char>,
    copy: CopyView<T::V>,
    path: Seq<char>,
    current: Option<FileFingerprint>,
    now: u64,
    other: Seq<char>,
)
    requires
        model::keyed_view(after.copies@) == model::put_in(
            model::keyed_view(before.copies@),
            id,
            copy,
        ),
        model::keyed(after.failures@) == model::taken_from(model::keyed(before.failures@), id),
    ensures
        after.copy_of(id) == Some(copy),
        (after.step(id, path, current, now) == FileStep::Use) == (path == copy.location && current
            is Some && current == copy.fingerprint),
        after.step(id, path, current, now) != FileStep::Wait,
        other != id ==> after.copy_of(other) == before.copy_of(other) && after.failure_of(other)
            == before.failure_of(other),
{
    model::put_then_get(model::keyed_view(before.copies@), id, copy, id);
    model::put_then_get(model::keyed_view(before.copies@), id, copy, other);
    model::take_then_get(model::keyed(before.failures@), id, id);
    model::take_then_get(model::keyed(before.failures@), id, other);
}

/// A file that failed is not read again before the backoff is over, and is read
/// again once it is; what other files do is not affected.
pub proof fn failed_file_waits_out_the_backoff<T: View>(
    before: FileRegistry<T>,
    after: FileRegistry<T>,
    id: Seq<char>,
    failed_at: u64,
    path: Seq<char>,
    current: Option<FileFingerprint>,
    now: u64,
    other: Seq<char>,
)
    requires
        after.copies@ == before.copies@,
        model::keyed(after.failures@) == model::put_in(
            model::keyed(before.failures@),
            id,
            failed_at,
        ),
        failed_at <= now,
    ensures
        now - failed_at < FAILURE_BACKOFF_SECS ==> after.step(id, path, current, now)
            != FileStep::Read,
        now - failed_at >= FAILURE_BACKOFF_SECS ==> after.step(id, path, current, now)
            != FileStep::Wait,
        other != id ==> after.step(other, path, current, now) == before.step(
            other,
            path,
            current,
            now,
        ),
{
    model::put_then_get(model::keyed(before.failures@), id, failed_at, id);
    model::put_then_get(model::keyed(before.failures@), id, failed_at, other);
}

/// Why a file is refused before it is opened, if it is.
pub open spec fn refusal(path: Seq<char>, what: Seq<char>, regular: bool, bytes: u64) -> Option<
    Seq<char>,
> {
    if !regular {
        Some(path + " is not a regular file"@)
    } else if bytes > MAX_FILE_BYTES {
        Some(too_large(what))
    } else {
        None
    }
}

pub open spec fn too_large(what: Seq<char>) -> Seq<char> {
    what + " is larger than 33554432 bytes"@
}

/// Decide from a file's metadata whether it may be opened.
pub fn check_file(path: &str, what: &str, regular: bool, bytes: u64) -> (r: Result<(), String>)
    ensures
        match r {
            Ok(_) => refusal(path@, what@, regular, bytes) is None,
            Err(message) => refusal(path@, what@, regular, bytes) == Some(message@),
        },
{
    if !regular {
        Err(text::join2(path, " is not a regular file"))
    } else if bytes > MAX_FILE_BYTES {
        Err(text::join2(what, " is larger than 33554432 bytes"))
    } else {
        Ok(())
    }
}

/// Whether a text is above the size limit.
pub open spec fn oversized(body: &str) -> bool {
    body.spec_bytes().len() as usize > MAX_FILE_BYTES
}

pub fn is_oversized(body: &str) -> (r: bool)
    ensures
        r == oversized(body),
{
    body.len() as u64 > MAX_FILE_BYTES
}

/// A copy is used as long as the file it came from is the one that is asked for
/// and has the same time and size. Otherwise the file is read, but for a minute
/// after it failed.
pub proof fn copy_is_used_for_the_same_version_only<T: View>(
    registry: FileRegistry<T>,
    id: Seq<char>,
    path: Seq<char>,
    current: Option<FileFingerprint>,
    now: u64,
)
    ensures
        ({
            let step = registry.step(id, path, current, now);
            let copy = registry.copy_of(id);
            let failed = registry.failure_of(id);
            let same = copy is Some && current is Some && copy->Some_0.location == path
                && copy->Some_0.fingerprint is Some && copy->Some_0.fingerprint->Some_0.mtime_nanos
                == current->Some_0.mtime_nanos && copy->Some_0.fingerprint->Some_0.size
                == current->Some_0.size;
            let recently = failed is Some && now < failed->Some_0 + 60;
            &&& step == FileStep::Use <==> same
            &&& step == FileStep::Wait <==> !same && recently
            &&& step == FileStep::Read <==> !same && !recently
        }),
{
}

/// The copy and the failure of an id are those that were kept under it last.
pub proof fn registry_answers_by_id<T: View>(registry: FileRegistry<T>, id: Seq<char>, i: int)
    ensures
        0 <= i < registry.copies@.len() && registry.copies@[i].0@ == id && (forall|k: int|
            0 <= k < i ==> (#[trigger] registry.copies@[k]).0@ != id) ==> registry.copy_of(id)
            == Some(registry.copies@[i].1@),
        (forall|k: int| 0 <= k < registry.copies@.len() ==> (#[trigger] registry.copies@[k]).0@ != id)
            ==> registry.copy_of(id) is None,
        0 <= i < registry.failures@.len() && registry.failures@[i].0@ == id && (forall|k: int|
            0 <= k < i ==> (#[trigger] registry.failures@[k]).0@ != id) ==> registry.failure_of(id)
            == Some(registry.failures@[i].1),
        (forall|k: int|
            0 <= k < registry.failures@.len() ==> (#[trigger] registry.failures@[k]).0@ != id)
            ==> registry.failure_of(id) is None,
{
    let copies = model::keyed_view(registry.copies@);
    let failures = model::keyed(registry.failures@);
    model::lemma_index_from(copies, id, 0);
    model::lemma_index_from(failures, id, 0);
    if let Some(at) = model::index_from(copies, id, 0) {
        assert(copies[at].0 == registry.copies@[at].0@);
        if 0 <= i < registry.copies@.len() && registry.copies@[i].0@ == id {
            assert(copies[i].0 == id);
        }
    } else if 0 <= i < registry.copies@.len() {
        assert(copies[i].0 == registry.copies@[i].0@);
    }
    if let Some(at) = model::index_from(failures, id, 0) {
        assert(failures[at].0 == registry.failures@[at].0@);
        if 0 <= i < registry.failures@.len() && registry.failures@[i].0@ == id {
            assert(failures[i].0 == id);
        }
    } else if 0 <= i < registry.failures@.len() {
        assert(failures[i].0 == registry.failures@[i].0@);
    }
}

/// Only a regular file of at most thirty-two mebibytes is read; anything else is
/// refused, what is no file before what is too large.
pub proof fn only_regular_files_of_some_size_are_read(
    path: Seq<char>,
    what: Seq<char>,
    regular: bool,
    bytes: u64,
)
    ensures
        refusal(path, what, regular, bytes) is None <==> regular && bytes <= 32 * 1024 * 1024,
        !regular ==> refusal(path, what, regular, bytes) == Some(
            path + " is not a regular file"@,
        ),
        regular && bytes > 32 * 1024 * 1024 ==> refusal(path, what, regular, bytes) == Some(
            what + " is larger than 33554432 bytes"@,
        ),
{
}

/// A text is too large when it has more than thirty-two mebibytes.
pub proof fn text_is_too_large_above_the_limit(body: &str)
    requires
        body.spec_bytes().len() <= usize::MAX,
    ensures
        oversized(body) <==> body.spec_bytes().len() > 32 * 1024 * 1024,
{
}

} // verus!
