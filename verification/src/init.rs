//! Setting up a rotating file, with the files that are already there.
use crate::errors::{CollectFilesError, NewError, NewFileError};
use crate::limits::Limits;
use crate::order::Parts;
use crate::path::{extension, LogPath};
use crate::rotating_file::RotatingFile;
use crate::state::{listing_is_unique, paths_of, State};
use crate::storage::{compressed_suffix, gz, log, uncompressed_ext, NewFile, Storage};
use crate::work::{Work, WorkId};
use std::io;
use vstd::prelude::*;

verus! {

/// An entry found in a directory.
pub struct DirEntry {
    pub path: LogPath,
    /// Whether it is a file, as far as its metadata could be read.
    pub is_file: Result<bool, io::Error>,
}

/// What an entry of the root directory is to a rotating file.
pub enum Found {
    /// A compressed log file.
    Compressed,
    /// A log file that was never compressed.
    Uncompressed,
    /// Anything else, the current file among it.
    Other,
}

/// What an entry at this path is to a rotating file with this current file.
pub open spec fn found(current: Parts, path: Parts, is_file: bool) -> Found {
    if !is_file || path == current {
        Found::Other
    } else if extension(path) == Some(gz()) {
        Found::Compressed
    } else if extension(path) == Some(log()) {
        Found::Uncompressed
    } else {
        Found::Other
    }
}

/// What an entry is, provided that it could be read.
pub open spec fn entry_found(current: Parts, entry: Result<DirEntry, io::Error>) -> Found {
    match entry {
        Ok(DirEntry { path, is_file: Ok(is_file) }) => found(current, path@, is_file),
        _ => Found::Other,
    }
}

/// Why an entry cannot be collected.
pub open spec fn entry_failure(entry: Result<DirEntry, io::Error>) -> Option<CollectFilesError> {
    match entry {
        Err(error) => Some(CollectFilesError::ReadDirEntry(error)),
        Ok(DirEntry { path, is_file: Err(error) }) => Some(
            CollectFilesError::AccessMetadata(path, error),
        ),
        Ok(_) => None,
    }
}

/// How many entries come before the first that cannot be collected.
pub open spec fn readable(entries: Seq<Result<DirEntry, io::Error>>) -> nat
    decreases entries.len(),
{
    if entries.len() == 0 || entry_failure(entries[0]) is Some {
        0
    } else {
        1 + readable(entries.drop_first())
    }
}

/// Whether a compressed log file is found at the path.
pub open spec fn finds_compressed(
    current: Parts,
    entries: Seq<Result<DirEntry, io::Error>>,
    path: Parts,
) -> bool {
    exists|i: int|
        0 <= i < entries.len() && entry_found(current, #[trigger] entries[i]) is Compressed
            && entries[i]->Ok_0.path@ == path
}

/// The paths of the log files found uncompressed, in the order in which they are found.
pub open spec fn found_uncompressed(
    current: Parts,
    entries: Seq<Result<DirEntry, io::Error>>,
) -> Seq<Parts>
    decreases entries.len(),
{
    if entries.len() == 0 {
        Seq::empty()
    } else if entry_found(current, entries.last()) is Uncompressed {
        found_uncompressed(current, entries.drop_last()).push(entries.last()->Ok_0.path@)
    } else {
        found_uncompressed(current, entries.drop_last())
    }
}

/// How the files in a directory are collected: those found compressed join the listing, those
/// found uncompressed are to be compressed, up to the first entry that cannot be collected.
pub open spec fn is_collected<H>(
    before: RotatingFile<H>,
    entries: Seq<Result<DirEntry, io::Error>>,
    after: RotatingFile<H>,
    to_compress: Seq<Parts>,
    outcome: Result<(), CollectFilesError>,
) -> bool {
    let current = before.current.path@;
    let collected = entries.take(readable(entries) as int);
    &&& after == (RotatingFile { state: after.state, ..before })
    &&& forall|path: Parts| #[trigger]
        after.state@.contains(path) <==> before.state@.contains(path) || finds_compressed(
            current,
            collected,
            path,
        )
    &&& to_compress == found_uncompressed(current, collected)
    &&& if readable(entries) == entries.len() {
        outcome is Ok
    } else {
        outcome == Err::<(), CollectFilesError>(
            entry_failure(entries[readable(entries) as int])->0,
        )
    }
}

/// The entries before the first failure can all be collected.
pub proof fn readable_prefix(entries: Seq<Result<DirEntry, io::Error>>)
    ensures
        readable(entries) <= entries.len(),
        forall|i: int| 0 <= i < readable(entries) ==> entry_failure(#[trigger] entries[i]) is None,
        readable(entries) < entries.len() ==> entry_failure(entries[readable(entries) as int])
            is Some,
    decreases entries.len(),
{
    if entries.len() > 0 && entry_failure(entries[0]) is None {
        let rest = entries.drop_first();
        readable_prefix(rest);
        assert forall|i: int| 0 <= i < readable(entries) implies entry_failure(
            #[trigger] entries[i],
        ) is None by {
            if i > 0 {
                assert(rest[i - 1] == entries[i]);
            }
        }
        if readable(entries) < entries.len() {
            assert(rest[readable(rest) as int] == entries[readable(entries) as int]);
        }
    }
}

impl Storage {
    /// The first log file, now that the root directory has been created, or the reason why it
    /// could not be.
    pub fn root_dir_created(&self, outcome: Result<(), io::Error>) -> (res: Result<
        NewFile,
        NewError,
    >)
        ensures
            (match outcome {
                Ok(_) => res matches Ok(file) && file.is_for(*self) && file.number == 0,
                Err(error) => res matches Err(NewError::CreateRootDir(path, cause)) && path@
                    == self.root_dir@ && cause == error,
            }),
    {
        match outcome {
            Ok(_) => Ok(self.open_new_file()),
            Err(error) => Err(NewError::CreateRootDir(self.root_dir.clone(), error)),
        }
    }

    /// The file to open in place of the first one, which turned out to exist already.
    pub fn first_name_taken(&self, file: NewFile, error: io::Error) -> (res: Result<
        NewFile,
        NewError,
    >)
        requires
            file.is_for(*self),
        ensures
            (match res {
                Ok(next) => file.number < u64::MAX && file.is_followed_by(*self, next),
                Err(failure) => file.number == u64::MAX && failure == NewError::NewFile(
                    NewFileError::Open(file.path, error),
                ),
            }),
    {
        match file.next_name(self, error) {
            Ok(next) => Ok(next),
            Err(failure) => Err(NewError::from(failure)),
        }
    }
}

impl<H> RotatingFile<H> {
    /// A rotating file whose first log file has been tried to open with this outcome. It knows of
    /// no other files yet.
    pub fn try_init(
        storage: Storage,
        limits: Limits,
        file: NewFile,
        outcome: Result<(), io::Error>,
    ) -> (res: Result<Self, NewError>)
        requires
            limits.is_valid(),
            file.is_for(storage),
        ensures
            (match outcome {
                Ok(_) => {
                    &&& res matches Ok(rotating)
                    &&& rotating.is_valid()
                    &&& rotating.storage == storage
                    &&& rotating.limits == limits
                    &&& rotating.current == file.as_current()
                    &&& rotating.state@ == Seq::<Parts>::empty()
                    &&& rotating.work@ == Seq::<(WorkId, H)>::empty()
                    &&& rotating.work.next() == 0
                },
                Err(error) => res == Err::<Self, NewError>(
                    NewError::NewFile(NewFileError::Open(file.path, error)),
                ),
            }),
    {
        match file.opened(outcome) {
            Ok(current) => {
                assert(current.file() == file);
                Ok(
                    RotatingFile {
                        storage,
                        limits,
                        current,
                        state: State::default(),
                        work: Work::new(),
                    },
                )
            },
            Err(error) => Err(NewError::from(error)),
        }
    }

    /// What the entry at this path is.
    pub fn find(&self, path: &LogPath, is_file: bool) -> (res: Found)
        ensures
            res == found(self.current.path@, path@, is_file),
    {
        if !is_file {
            return Found::Other;
        }
        if path.same_as(&self.current.path) {
            return Found::Other;
        }
        if path.has_extension(compressed_suffix()) {
            return Found::Compressed;
        }
        if path.has_extension(uncompressed_ext()) {
            return Found::Uncompressed;
        }
        Found::Other
    }

    /// Collects the files that are already in the root directory, whose entries were read with
    /// this outcome. Returns the log files that are yet to be compressed, and whether all entries
    /// were collected.
    pub fn collect_existing_files(
        &mut self,
        listing: Result<Vec<Result<DirEntry, io::Error>>, io::Error>,
    ) -> (res: (Vec<LogPath>, Result<(), CollectFilesError>))
        requires
            old(self).is_valid(),
        ensures
            final(self).is_valid(),
            (match listing {
                Ok(entries) => is_collected(
                    *old(self),
                    entries@,
                    *final(self),
                    paths_of(res.0@),
                    res.1,
                ),
                Err(error) => {
                    &&& *final(self) == *old(self)
                    &&& res.0@.len() == 0
                    &&& res.1 matches Err(CollectFilesError::ReadDir(path, cause)) && path@ == old(
                        self,
                    ).storage.root_dir@ && cause == error
                },
            }),
            forall|i: int|
                0 <= i < res.0@.len() ==> extension((#[trigger] res.0@[i])@) == Some(log())
                    && res.0@[i]@ != old(self).current.path@,
    {
        let mut to_compress: Vec<LogPath> = Vec::new();
        let mut entries = match listing {
            Ok(entries) => entries,
            Err(error) => return (
                to_compress,
                Err(CollectFilesError::ReadDir(self.storage.root_dir.clone(), error)),
            ),
        };
        let ghost all = entries@;
        let ghost current = self.current.path@;
        let ghost mut done: int = 0;
        proof {
            readable_prefix(all);
            assert(all.skip(0) =~= all);
            assert(paths_of(to_compress@) =~= found_uncompressed(current, all.take(0)));
        }
        while entries.len() > 0
            invariant
                listing matches Ok(given) && given@ == all,
                old(self).is_valid(),
                self.is_valid(),
                0 <= done <= readable(all) <= all.len(),
                entries@ == all.skip(done),
                current == self.current.path@,
                *self == (RotatingFile { state: self.state, ..*old(self) }),
                forall|i: int| 0 <= i < readable(all) ==> entry_failure(#[trigger] all[i]) is None,
                readable(all) < all.len() ==> entry_failure(all[readable(all) as int]) is Some,
                forall|path: Parts| #[trigger]
                    self.state@.contains(path) <==> old(self).state@.contains(path)
                        || finds_compressed(current, all.take(done), path),
                paths_of(to_compress@) == found_uncompressed(current, all.take(done)),
                forall|i: int|
                    0 <= i < to_compress@.len() ==> extension((#[trigger] to_compress@[i])@)
                        == Some(log()) && to_compress@[i]@ != current,
            decreases entries@.len(),
        {
            let entry = entries.remove(0);
            assert(entry == all[done]);
            let ghost before = self.state@;
            let ghost queued = to_compress@;
            let DirEntry { path, is_file } = match entry {
                Ok(entry) => entry,
                Err(error) => {
                    return (to_compress, Err(CollectFilesError::ReadDirEntry(error)));
                },
            };
            let is_file: bool = match is_file {
                Ok(is_file) => is_file,
                Err(error) => {
                    return (to_compress, Err(CollectFilesError::AccessMetadata(path, error)));
                },
            };
            match self.find(&path, is_file) {
                Found::Compressed => self.state.found_file(path),
                Found::Uncompressed => to_compress.push(path),
                Found::Other => {},
            }
            proof {
                let seen = all.take(done + 1);
                assert(seen.drop_last() =~= all.take(done));
                assert(seen.last() == entry);
                assert(entries@ =~= all.skip(done + 1));
                if entry_found(current, entry) is Uncompressed {
                    assert(paths_of(to_compress@) =~= paths_of(queued).push(path@));
                }
                assert forall|other: Parts| #[trigger]
                    self.state@.contains(other) <==> old(self).state@.contains(other)
                        || finds_compressed(current, seen, other) by {
                    if finds_compressed(current, all.take(done), other) {
                        let i = choose|i: int|
                            0 <= i < done && entry_found(current, #[trigger] all.take(done)[i])
                                is Compressed && all.take(done)[i]->Ok_0.path@ == other;
                        assert(seen[i] == all.take(done)[i]);
                    }
                    if finds_compressed(current, seen, other) {
                        let i = choose|i: int|
                            0 <= i < done + 1 && entry_found(current, #[trigger] seen[i])
                                is Compressed && seen[i]->Ok_0.path@ == other;
                        if i < done {
                            assert(all.take(done)[i] == seen[i]);
                        }
                    }
                    if entry_found(current, entry) is Compressed {
                        assert(seen[done] == entry);
                    }
                }
                done = done + 1;
            }
        }
        (to_compress, Ok(()))
    }
}

/// The order in which the entries of a directory are read does not matter: the same entries make
/// the same listing.
pub proof fn collected_listing_ignores_order<H>(
    before: RotatingFile<H>,
    entries: Seq<Result<DirEntry, io::Error>>,
    after: RotatingFile<H>,
    to_compress: Seq<Parts>,
    shuffled: Seq<Result<DirEntry, io::Error>>,
    other: RotatingFile<H>,
    other_to_compress: Seq<Parts>,
)
    requires
        after.is_valid(),
        other.is_valid(),
        is_collected(before, entries, after, to_compress, Ok(())),
        is_collected(before, shuffled, other, other_to_compress, Ok(())),
        forall|entry: Result<DirEntry, io::Error>|
            entries.contains(entry) <==> shuffled.contains(entry),
    ensures
        after.state@ == other.state@,
{
    readable_prefix(entries);
    readable_prefix(shuffled);
    let current = before.current.path@;
    assert(entries.take(entries.len() as int) =~= entries);
    assert(shuffled.take(shuffled.len() as int) =~= shuffled);
    assert forall|path: Parts| after.state@.contains(path) <==> other.state@.contains(path) by {
        if finds_compressed(current, entries, path) {
            let i = choose|i: int|
                0 <= i < entries.len() && entry_found(current, #[trigger] entries[i])
                    is Compressed && entries[i]->Ok_0.path@ == path;
            assert(entries.contains(entries[i]));
            let j = choose|j: int| 0 <= j < shuffled.len() && shuffled[j] == entries[i];
            assert(finds_compressed(current, shuffled, path));
        }
        if finds_compressed(current, shuffled, path) {
            let i = choose|i: int|
                0 <= i < shuffled.len() && entry_found(current, #[trigger] shuffled[i])
                    is Compressed && shuffled[i]->Ok_0.path@ == path;
            assert(shuffled.contains(shuffled[i]));
            let j = choose|j: int| 0 <= j < entries.len() && entries[j] == shuffled[i];
            assert(finds_compressed(current, entries, path));
        }
    }
    listing_is_unique(after.state@, other.state@);
}

} // verus!
