//! Setting up.
use crate::errors::{CollectFilesError, NewError, NewFileError};
use crate::init::{
    entry_failure, entry_found, finds_compressed, found_uncompressed, readable, readable_prefix,
    DirEntry, Found,
};
use crate::limits::Limits;
use crate::order::{parent_part, path_lt, Parts};
use crate::path::{
    extension, last_dot, last_dot_bounds, last_dot_unique, name_is_stem_and_extension, stem,
    LogPath, DOT,
};
use crate::rotating_file::{current_file_is_not_listed, RotatingFile};
use crate::state::paths_of;
use crate::storage::{
    compressed_path, compression_appends_suffix, gz, log, new_file_is_uncompressed, NewFile,
    Storage,
};
use std::io;
use vstd::prelude::*;

verus! {

/// A file name ends in a dot and an extension without a dot, behind at least one byte, where that
/// is its extension.
proof fn extension_is_the_end(path: Parts, ext: Seq<u8>)
    requires
        ext.len() >= 2,
        !ext.contains(DOT),
    ensures
        extension(path) == Some(ext) <==> path.len() > 0 && path.last().len() > ext.len() + 1
            && path.last().subrange(
            path.last().len() - ext.len() - 1,
            path.last().len() as int,
        ) == seq![DOT] + ext,
{
    if path.len() > 0 {
        let name = path.last();
        last_dot_bounds(name);
        if extension(path) == Some(ext) {
            name_is_stem_and_extension(path);
            let at = last_dot(name);
            assert(name == stem(name).push(DOT) + ext);
            assert(stem(name).len() == at);
            assert(name.subrange(name.len() - ext.len() - 1, name.len() as int) =~= seq![DOT]
                + ext);
        }
        if name.len() > ext.len() + 1 && name.subrange(
            name.len() - ext.len() - 1,
            name.len() as int,
        ) == seq![DOT] + ext {
            let at = name.len() - ext.len() - 1;
            let end = name.subrange(at, name.len() as int);
            assert(name[at] == end[0]);
            assert forall|i: int| at < i < name.len() implies name[i] != DOT by {
                assert(name[i] == end[i - at]);
                assert(end[i - at] == ext[i - at - 1]);
                assert(ext.contains(ext[i - at - 1]));
            }
            last_dot_unique(name, at);
            assert(name.skip(at + 1) =~= ext) by {
                assert forall|i: int| 0 <= i < ext.len() implies name.skip(at + 1)[i] == ext[i] by {
                    assert(name.skip(at + 1)[i] == end[i + 1]);
                }
            }
            assert(name.len() > 3 && parent_part().len() == 2);
        }
    }
}

/// The two extensions, byte by byte.
proof fn extensions_are_the_ends(path: Parts)
    ensures
        extension(path) == Some(gz()) <==> path.len() > 0 && path.last().len() > 3
            && path.last().subrange(path.last().len() - 3, path.last().len() as int)
            == seq![0x2eu8, 0x67u8, 0x7au8],
        extension(path) == Some(log()) <==> path.len() > 0 && path.last().len() > 4
            && path.last().subrange(path.last().len() - 4, path.last().len() as int)
            == seq![0x2eu8, 0x6cu8, 0x6fu8, 0x67u8],
{
    assert(!gz().contains(DOT)) by {
        assert(forall|i: int| 0 <= i < 2 ==> gz()[i] != DOT);
    }
    assert(!log().contains(DOT)) by {
        assert(forall|i: int| 0 <= i < 3 ==> log()[i] != DOT);
    }
    extension_is_the_end(path, gz());
    extension_is_the_end(path, log());
    assert(seq![DOT] + gz() =~= seq![0x2eu8, 0x67u8, 0x7au8]);
    assert(seq![DOT] + log() =~= seq![0x2eu8, 0x6cu8, 0x6fu8, 0x67u8]);
}

/// A file other than the current one counts as a compressed log where its name ends in `.gz`,
/// behind at least one byte, and as an uncompressed one where it ends in `.log`. Nothing else
/// matters: not the limits, not the listing, not how its name compares to others.
pub proof fn files_are_told_by_their_ends<H>(
    file: RotatingFile<H>,
    path: LogPath,
    is_file: bool,
    found: Found,
)
    requires
        call_ensures(RotatingFile::<H>::find, (&file, &path, is_file), found),
    ensures
        found is Compressed <==> is_file && path@ != file.current.path@ && path@.len() > 0
            && path@.last().len() > 3 && path@.last().subrange(
            path@.last().len() - 3,
            path@.last().len() as int,
        ) == seq![0x2eu8, 0x67u8, 0x7au8],
        found is Uncompressed <==> is_file && path@ != file.current.path@ && path@.len() > 0
            && path@.last().len() > 4 && path@.last().subrange(
            path@.last().len() - 4,
            path@.last().len() as int,
        ) == seq![0x2eu8, 0x6cu8, 0x6fu8, 0x67u8],
{
    extensions_are_the_ends(path@);
    assert(log().len() == 3 && gz().len() == 2);
}

/// Of the entries of the root directory up to the first that cannot be read, every file other than
/// the current one whose name ends in `.gz` is listed afterwards, besides what was listed before,
/// and nothing else is. The first that cannot be read is the error; without one all is well.
pub proof fn compressed_files_are_listed<H>(
    file: &mut RotatingFile<H>,
    entries: Vec<Result<DirEntry, io::Error>>,
    n: int,
    res: (Vec<LogPath>, Result<(), CollectFilesError>),
)
    requires
        call_ensures(RotatingFile::<H>::collect_existing_files, (file, Ok(entries)), res),
        0 <= n <= entries@.len(),
        forall|i: int|
            0 <= i < n ==> ((#[trigger] entries@[i]) matches Ok(entry) && entry.is_file is Ok),
        n < entries@.len() ==> (entries@[n] matches Ok(entry) ==> entry.is_file is Err),
    ensures
        final(file).storage == old(file).storage,
        final(file).limits == old(file).limits,
        final(file).current == old(file).current,
        final(file).work == old(file).work,
        forall|path: Parts| #[trigger]
            final(file).state@.contains(path) <==> old(file).state@.contains(path) || (path
                != old(file).current.path@ && path.len() > 0 && path.last().len() > 3
                && path.last().subrange(path.last().len() - 3, path.last().len() as int)
                == seq![0x2eu8, 0x67u8, 0x7au8] && exists|i: int|
                0 <= i < n && (#[trigger] entries@[i])->Ok_0.path@ == path
                    && entries@[i]->Ok_0.is_file->Ok_0),
        forall|i: int, j: int|
            #![trigger final(file).state@[i], final(file).state@[j]]
            0 <= i < j < final(file).state@.len() ==> path_lt(
                final(file).state@[i],
                final(file).state@[j],
            ),
        n == entries@.len() ==> res.1 is Ok,
        n < entries@.len() ==> (entries@[n] matches Err(error) ==> res.1 == Err::<
            (),
            CollectFilesError,
        >(CollectFilesError::ReadDirEntry(error))),
        n < entries@.len() ==> (entries@[n] matches Ok(entry) ==> res.1 == Err::<
            (),
            CollectFilesError,
        >(CollectFilesError::AccessMetadata(entry.path, entry.is_file->Err_0))),
{
    let all = entries@;
    readable_is(all, n);
    let current = old(file).current.path@;
    let seen = all.take(n);
    assert forall|path: Parts| #[trigger]
        final(file).state@.contains(path) <==> old(file).state@.contains(path) || (path != current
            && path.len() > 0 && path.last().len() > 3 && path.last().subrange(
            path.last().len() - 3,
            path.last().len() as int,
        ) == seq![0x2eu8, 0x67u8, 0x7au8] && exists|i: int|
            0 <= i < n && (#[trigger] all[i])->Ok_0.path@ == path
                && all[i]->Ok_0.is_file->Ok_0) by {
        extensions_are_the_ends(path);
        if finds_compressed(current, seen, path) {
            let i = choose|i: int|
                0 <= i < seen.len() && entry_found(current, #[trigger] seen[i]) is Compressed
                    && seen[i]->Ok_0.path@ == path;
            assert(all[i] == seen[i]);
        }
        if extension(path) == Some(gz()) && path != current && exists|i: int|
            0 <= i < n && (#[trigger] all[i])->Ok_0.path@ == path && all[i]->Ok_0.is_file->Ok_0 {
            let i = choose|i: int|
                0 <= i < n && (#[trigger] all[i])->Ok_0.path@ == path
                    && all[i]->Ok_0.is_file->Ok_0;
            assert(seen[i] == all[i]);
            assert(entry_found(current, seen[i]) is Compressed);
        }
    }
}

/// The entries before the first that cannot be read.
proof fn readable_is(entries: Seq<Result<DirEntry, io::Error>>, n: int)
    requires
        0 <= n <= entries.len(),
        forall|i: int|
            0 <= i < n ==> ((#[trigger] entries[i]) matches Ok(entry) && entry.is_file is Ok),
        n < entries.len() ==> (entries[n] matches Ok(entry) ==> entry.is_file is Err),
    ensures
        readable(entries) == n,
{
    readable_prefix(entries);
    let r = readable(entries) as int;
    if r < n {
        assert(entry_failure(entries[r]) is Some);
        assert(entries[r] matches Ok(entry) && entry.is_file is Ok);
    } else if n < r {
        assert(entry_failure(entries[n]) is None);
    }
}

/// An entry that is a log file which was never compressed, and not the current file.
proof fn uncompressed_entry(current: Parts, entry: Result<DirEntry, io::Error>)
    requires
        entry matches Ok(found) && found.is_file is Ok,
    ensures
        ({
            let path = entry->Ok_0.path@;
            entry_found(current, entry) is Uncompressed <==> entry->Ok_0.is_file->Ok_0 && path
                != current && path.len() > 0 && path.last().len() > 4 && path.last().subrange(
                path.last().len() - 4,
                path.last().len() as int,
            ) == seq![0x2eu8, 0x6cu8, 0x6fu8, 0x67u8]
        }),
{
    extensions_are_the_ends(entry->Ok_0.path@);
    assert(log().len() == 3 && gz().len() == 2);
}

/// Where the files to compress stand among the entries.
proof fn queue_positions(
    current: Parts,
    entries: Seq<Result<DirEntry, io::Error>>,
) -> (at: Seq<int>)
    requires
        forall|i: int|
            0 <= i < entries.len() ==> ((#[trigger] entries[i]) matches Ok(entry) && entry.is_file
                is Ok),
    ensures
        at.len() == found_uncompressed(current, entries).len(),
        forall|k: int|
            0 <= k < at.len() ==> 0 <= #[trigger] at[k] < entries.len() && entry_found(
                current,
                entries[at[k]],
            ) is Uncompressed && entries[at[k]]->Ok_0.path@ == found_uncompressed(
                current,
                entries,
            )[k],
        forall|j: int, k: int|
            #![trigger at[j], at[k]]
            0 <= j < k < at.len() ==> at[j] < at[k],
        forall|i: int|
            0 <= i < entries.len() && entry_found(current, #[trigger] entries[i]) is Uncompressed
                ==> at.contains(i),
    decreases entries.len(),
{
    if entries.len() == 0 {
        Seq::empty()
    } else {
        let rest = entries.drop_last();
        assert forall|i: int| 0 <= i < rest.len() implies ((#[trigger] rest[i]) matches Ok(entry)
            && entry.is_file is Ok) by {
            assert(rest[i] == entries[i]);
        }
        let before = queue_positions(current, rest);
        let last = entries.len() - 1;
        let at = if entry_found(current, entries.last()) is Uncompressed {
            before.push(last)
        } else {
            before
        };
        assert forall|k: int| 0 <= k < at.len() implies 0 <= #[trigger] at[k] < entries.len()
            && entry_found(current, entries[at[k]]) is Uncompressed && entries[at[k]]->Ok_0.path@
            == found_uncompressed(current, entries)[k] by {
            if k < before.len() {
                assert(at[k] == before[k]);
                assert(rest[before[k]] == entries[before[k]]);
            }
        }
        assert forall|j: int, k: int|
            #![trigger at[j], at[k]]
            0 <= j < k < at.len() implies at[j] < at[k] by {
            assert(at[j] == before[j]);
            if k < before.len() {
                assert(at[k] == before[k]);
            }
        }
        assert forall|i: int|
            0 <= i < entries.len() && entry_found(current, #[trigger] entries[i])
                is Uncompressed implies at.contains(i) by {
            if i < last {
                assert(rest[i] == entries[i]);
                assert(before.contains(i));
                let k = choose|k: int| 0 <= k < before.len() && before[k] == i;
                assert(at[k] == i);
            } else {
                assert(at[before.len() as int] == i);
            }
        }
        at
    }
}

/// Every file other than the current one whose name ends in `.log`, among the entries up to the
/// first that cannot be read, is to be compressed; nothing else is. They come in the order of the
/// entries, each as often as it is found.
pub proof fn uncompressed_files_are_queued<H>(
    file: &mut RotatingFile<H>,
    entries: Vec<Result<DirEntry, io::Error>>,
    n: int,
    res: (Vec<LogPath>, Result<(), CollectFilesError>),
)
    requires
        call_ensures(RotatingFile::<H>::collect_existing_files, (file, Ok(entries)), res),
        0 <= n <= entries@.len(),
        forall|i: int|
            0 <= i < n ==> ((#[trigger] entries@[i]) matches Ok(entry) && entry.is_file is Ok),
        n < entries@.len() ==> (entries@[n] matches Ok(entry) ==> entry.is_file is Err),
    ensures
        exists|at: Seq<int>|
            {
                &&& #[trigger] at.len() == res.0@.len()
                &&& forall|k: int|
                    0 <= k < at.len() ==> 0 <= #[trigger] at[k] < n && res.0@[k]@
                        == entries@[at[k]]->Ok_0.path@
                &&& forall|j: int, k: int|
                    #![trigger at[j], at[k]]
                    0 <= j < k < at.len() ==> at[j] < at[k]
                &&& forall|i: int|
                    0 <= i < n ==> (at.contains(i) <==> (#[trigger] entries@[i])->Ok_0.is_file->Ok_0
                        && entries@[i]->Ok_0.path@ != old(file).current.path@
                        && entries@[i]->Ok_0.path@.len() > 0 && entries@[i]->Ok_0.path@.last().len()
                        > 4 && entries@[i]->Ok_0.path@.last().subrange(
                        entries@[i]->Ok_0.path@.last().len() - 4,
                        entries@[i]->Ok_0.path@.last().len() as int,
                    ) == seq![0x2eu8, 0x6cu8, 0x6fu8, 0x67u8])
            },
{
    let all = entries@;
    readable_is(all, n);
    let current = old(file).current.path@;
    let seen = all.take(n);
    assert forall|i: int| 0 <= i < seen.len() implies ((#[trigger] seen[i]) matches Ok(entry)
        && entry.is_file is Ok) by {
        assert(seen[i] == all[i]);
    }
    let at = queue_positions(current, seen);
    let queue = paths_of(res.0@);
    assert(queue == found_uncompressed(current, seen));
    assert(queue.len() == res.0@.len());
    assert forall|k: int| 0 <= k < at.len() implies 0 <= #[trigger] at[k] < n && res.0@[k]@
        == all[at[k]]->Ok_0.path@ by {
        assert(seen[at[k]] == all[at[k]]);
        assert(queue[k] == res.0@[k]@);
    }
    assert forall|i: int| 0 <= i < n implies (at.contains(i) <==> (
    #[trigger] all[i])->Ok_0.is_file->Ok_0 && all[i]->Ok_0.path@ != current
        && all[i]->Ok_0.path@.len() > 0 && all[i]->Ok_0.path@.last().len() > 4
        && all[i]->Ok_0.path@.last().subrange(
        all[i]->Ok_0.path@.last().len() - 4,
        all[i]->Ok_0.path@.last().len() as int,
    ) == seq![0x2eu8, 0x6cu8, 0x6fu8, 0x67u8]) by {
        assert(seen[i] == all[i]);
        uncompressed_entry(current, all[i]);
        if at.contains(i) {
            let k = choose|k: int| 0 <= k < at.len() && at[k] == i;
            assert(entry_found(current, seen[at[k]]) is Uncompressed);
        }
    }
    assert(at.len() == res.0@.len());
}

/// A directory that cannot be read is an error that names it; nothing changes.
pub proof fn unreadable_directory_is_an_error<H>(
    file: &mut RotatingFile<H>,
    error: io::Error,
    res: (Vec<LogPath>, Result<(), CollectFilesError>),
)
    requires
        call_ensures(RotatingFile::<H>::collect_existing_files, (file, Err(error)), res),
    ensures
        *final(file) == *old(file),
        res.0@.len() == 0,
        res.1 matches Err(CollectFilesError::ReadDir(path, cause))
            && path@ == old(file).storage.root_dir@ && cause == error,
{
}

/// The compressed log of an earlier run is listed again: every log file of the storage, whenever it
/// was begun, that is found in the root directory under its compressed name.
pub proof fn earlier_logs_are_listed_again<H>(
    file: &mut RotatingFile<H>,
    entries: Vec<Result<DirEntry, io::Error>>,
    res: (Vec<LogPath>, Result<(), CollectFilesError>),
    earlier: NewFile,
    i: int,
)
    requires
        call_ensures(RotatingFile::<H>::collect_existing_files, (file, Ok(entries)), res),
        old(file).is_valid(),
        forall|k: int|
            0 <= k < entries@.len() ==> ((#[trigger] entries@[k]) matches Ok(entry)
                && entry.is_file is Ok),
        earlier.is_for(old(file).storage),
        0 <= i < entries@.len(),
        entries@[i]->Ok_0.path@ == compressed_path(earlier.path@),
        entries@[i]->Ok_0.is_file->Ok_0,
    ensures
        final(file).state@.contains(compressed_path(earlier.path@)),
{
    let n = entries@.len() as int;
    compressed_files_are_listed(file, entries, n, res);
    new_file_is_uncompressed(old(file).storage, earlier);
    compression_appends_suffix(earlier.path@);
    let path = compressed_path(earlier.path@);
    extensions_are_the_ends(path);
    current_file_is_not_listed(*old(file));
    assert(log().len() == 3 && gz().len() == 2);
    assert(entries@[i] matches Ok(entry) && entry.is_file is Ok);
}

/// A rotating file begins with the file that was opened for it, empty, with nothing listed and
/// nothing running; storage and limits are those given. A file that cannot be opened is an error
/// that names it.
pub proof fn set_up_with_the_opened_file<H>(
    storage: Storage,
    limits: Limits,
    file: NewFile,
    outcome: Result<(), io::Error>,
    res: Result<RotatingFile<H>, NewError>,
)
    requires
        call_ensures(RotatingFile::<H>::try_init, (storage, limits, file, outcome), res),
    ensures
        outcome is Ok ==> (res matches Ok(rotating) && rotating.storage == storage
            && rotating.limits == limits && rotating.current.path == file.path
            && rotating.current.began == file.began && rotating.current.number == file.number
            && rotating.current.bytes_written == 0 && rotating.state@.len() == 0
            && rotating.work@.len() == 0),
        outcome matches Err(error) ==> res == Err::<RotatingFile<H>, NewError>(
            NewError::NewFile(NewFileError::Open(file.path, error)),
        ),
{
}

/// The first file is tried once the root directory is there; a root directory that cannot be
/// created is an error that names it.
pub proof fn root_directory_comes_first(
    storage: Storage,
    outcome: Result<(), io::Error>,
    res: Result<NewFile, NewError>,
)
    requires
        call_ensures(Storage::root_dir_created, (&storage, outcome), res),
    ensures
        outcome is Ok ==> res is Ok && res->Ok_0.number == 0 && res->Ok_0.is_for(storage),
        outcome matches Err(error) ==> (res matches Err(NewError::CreateRootDir(path, cause))
            && path@ == storage.root_dir@ && cause == error),
{
}

/// Where the name of the first file is taken, the next number of that moment is tried.
pub proof fn first_name_that_is_taken_leads_to_the_next(
    storage: Storage,
    file: NewFile,
    error: io::Error,
    res: Result<NewFile, NewError>,
)
    requires
        call_ensures(Storage::first_name_taken, (&storage, file, error), res),
    ensures
        file.number < u64::MAX ==> (res matches Ok(next) && next.began == file.began && next.number
            == file.number + 1 && next.is_for(storage)),
        file.number == u64::MAX ==> res == Err::<NewFile, NewError>(
            NewError::NewFile(NewFileError::Open(file.path, error)),
        ),
{
}

} // verus!
