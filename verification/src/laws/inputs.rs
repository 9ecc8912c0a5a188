//! What the operations accept.
use crate::compress::Compression;
use crate::errors::{CollectFilesError, CompressError, ExportError, NewError, RotateError};
use crate::export::{Export, ExportStep};
use crate::init::DirEntry;
use crate::limits::Limits;
use crate::path::LogPath;
use crate::rotate::Rotation;
use crate::rotating_file::{Current, Opening, RotatingFile};
use crate::state::State;
use crate::storage::{NewFile, Storage};
use crate::time::{TimeDelta, Timestamp};
use crate::work::WorkId;
use crate::write::Writing;
use std::io;
use vstd::prelude::*;

verus! {

/// A rotating file may have any limits, if none is zero, and any number of bytes may have been
/// written to its current file.
pub proof fn limits_are_free<H>(file: RotatingFile<H>, limits: Limits, bytes_written: usize)
    requires
        file.is_valid(),
        limits.size != Some(0usize),
        limits.files != Some(0usize),
    ensures
        (RotatingFile { limits, ..file }).is_valid(),
        (RotatingFile { current: Current { bytes_written, ..file.current }, ..file }).is_valid(),
{
    let current = Current { bytes_written, ..file.current };
    assert(current.file() == file.current.file());
}

/// A rotating file can be set up in any storage with any limits, if none is zero, once a file of
/// the storage has been tried to open. What comes of it can be used.
pub proof fn any_limits_are_accepted<H>(
    storage: Storage,
    limits: Limits,
    began: Timestamp,
    file: NewFile,
    outcome: Result<(), io::Error>,
    res: Result<RotatingFile<H>, NewError>,
)
    requires
        limits.size != Some(0usize),
        limits.files != Some(0usize),
        call_ensures(Storage::open_new_file_at, (&storage, began), file),
        call_ensures(RotatingFile::<H>::try_init, (storage, limits, file, outcome), res),
    ensures
        call_requires(RotatingFile::<H>::try_init, (storage, limits, file, outcome)),
        res matches Ok(rotating) ==> rotating.is_valid(),
{
}

/// Limits may be set to anything but zero, spans to anything.
pub proof fn limits_can_be_set(limits: Limits, n: usize, max_age: TimeDelta)
    requires
        n > 0,
    ensures
        call_requires(Limits::size, (limits, n)),
        call_requires(Limits::age, (limits, max_age)),
        call_requires(Limits::files, (limits, n)),
{
}

/// A rotating file takes writes and exports at any time, and its current file can be compressed.
pub proof fn operations_can_begin<H>(
    file: RotatingFile<H>,
    bytes_to_write: usize,
    time: Timestamp,
    dest: LogPath,
    path: LogPath,
    is_file: bool,
)
    requires
        file.is_valid(),
    ensures
        call_requires(RotatingFile::<H>::should_rotate, (&file, bytes_to_write, time)),
        call_requires(Writing::start_at::<H>, (&file, bytes_to_write, time)),
        call_requires(Writing::start::<H>, (&file, bytes_to_write)),
        call_requires(RotatingFile::<H>::export, (&file, dest)),
        call_requires(RotatingFile::<H>::current_compression, (&file,)),
        call_requires(RotatingFile::<H>::find, (&file, &path, is_file)),
{
}

/// A step of a write, of a rotation or of an export may have any outcome, whatever the limits.
pub proof fn any_outcome_is_accepted<H>(
    file: &mut RotatingFile<H>,
    rotation: Rotation,
    export: Export<H>,
    outcome: Result<(), io::Error>,
    written: Result<usize, io::Error>,
)
    requires
        old(file).is_valid(),
        rotation matches Rotation::Open(opened) ==> opened.is_for(old(file).storage),
        export.step == ExportStep::<H>::Rotate(rotation),
        written matches Ok(n) ==> old(file).current.bytes_written + n <= usize::MAX,
    ensures
        call_requires(Rotation::resume::<H>, (rotation, file, outcome)),
        call_requires(Writing::resume::<H>, (Writing::Rotate(rotation), file, outcome)),
        call_requires(Writing::resume::<H>, (Writing::Write, file, outcome)),
        call_requires(Export::<H>::rotated, (export, file, outcome)),
        call_requires(RotatingFile::<H>::write, (file, written)),
{
}

/// The remaining steps of an export may have any outcome, with any rotating file.
pub proof fn any_step_of_an_export_is_accepted<H>(
    export: Export<H>,
    file: RotatingFile<H>,
    outcome: Result<(), io::Error>,
    result: Result<(), CompressError>,
    copied: Result<u64, io::Error>,
)
    requires
        export.step is OpenInput || export.step is Copy ==> export.files_copied
            < export.files@.len(),
        copied matches Ok(bytes) ==> export.bytes_copied + bytes <= u64::MAX,
    ensures
        call_requires(Export::<H>::resume, (export, &file, outcome)),
        call_requires(Export::<H>::joined, (export, result)),
        export.step is Copy ==> call_requires(Export::<H>::copied, (export, copied)),
{
}

/// A compression can be started by any rotation, recorded in any listing, and listed files can be
/// found and forgotten.
pub proof fn records_accept_all<H>(
    file: &mut RotatingFile<H>,
    handle: H,
    began: Timestamp,
    compression: Compression,
    id: WorkId,
    listing: Result<Vec<Result<DirEntry, io::Error>>, io::Error>,
    outcome: Result<(), io::Error>,
)
    requires
        old(file).is_valid(),
        old(file).work.next() < u64::MAX,
        began.is_valid(),
        compression.is_valid(),
    ensures
        call_requires(Rotation::started_at::<H>, (Rotation::Compress, file, handle, began)),
        call_requires(
            Writing::started_at::<H>,
            (Writing::Rotate(Rotation::Compress), file, handle, began),
        ),
        call_requires(RotatingFile::<H>::enqueue_compression, (file, handle)),
        compression.step is Done ==> call_requires(
            Compression::record::<H>,
            (compression, id, file),
        ),
        call_requires(RotatingFile::<H>::collect_existing_files, (file, listing)),
        call_requires(Compression::resume, (compression, outcome)),
{
}

/// Every step of a rotation and of a write leaves the rotating file as it has to be: the listing in
/// order and of compressed files alone, the current file named after the moment it was begun.
pub proof fn steps_keep_the_file_valid<H>(
    a: &mut RotatingFile<H>,
    rotation: Rotation,
    outcome: Result<(), io::Error>,
    x: Result<Rotation, RotateError>,
    b: &mut RotatingFile<H>,
    writing: Writing,
    y: Result<Writing, io::Error>,
    c: &mut RotatingFile<H>,
    written: Result<usize, io::Error>,
    z: Result<usize, io::Error>,
)
    requires
        call_ensures(Rotation::resume::<H>, (rotation, a, outcome), x),
        call_ensures(Writing::resume::<H>, (writing, b, outcome), y),
        call_ensures(RotatingFile::<H>::write, (c, written), z),
        old(c).is_valid(),
    ensures
        final(a).is_valid(),
        final(b).is_valid(),
        final(c).is_valid(),
        x matches Ok(Rotation::Open(opened)) ==> opened.is_for(final(a).storage),
        y matches Ok(Writing::Rotate(Rotation::Open(opened))) ==> opened.is_for(final(b).storage),
{
}

/// So does every step of an export, and what leads on from the creation of a file.
pub proof fn exports_keep_the_file_valid<H>(
    a: &mut RotatingFile<H>,
    export: Export<H>,
    outcome: Result<(), io::Error>,
    x: Result<Export<H>, ExportError>,
    b: &mut RotatingFile<H>,
    opening: Opening,
    y: Result<Export<H>, ExportError>,
    c: &mut RotatingFile<H>,
    rotation: Rotation,
    z: Result<Rotation, RotateError>,
    d: &mut RotatingFile<H>,
    writing: Writing,
    w: Result<Writing, io::Error>,
)
    requires
        call_ensures(Export::<H>::rotated, (export, a, outcome), x),
        call_ensures(Export::<H>::opened, (export, b, opening), y),
        call_ensures(Rotation::opened::<H>, (rotation, c, opening), z),
        call_ensures(Writing::opened::<H>, (writing, d, opening), w),
    ensures
        final(a).is_valid(),
        final(b).is_valid(),
        final(c).is_valid(),
        final(d).is_valid(),
{
}

/// So do the records of compressions and of what is found in the directory.
pub proof fn records_keep_the_file_valid<H>(
    a: &mut RotatingFile<H>,
    handle: H,
    id: WorkId,
    b: &mut RotatingFile<H>,
    compression: Compression,
    c: &mut RotatingFile<H>,
    listing: Result<Vec<Result<DirEntry, io::Error>>, io::Error>,
    found: (Vec<LogPath>, Result<(), CollectFilesError>),
    d: &mut RotatingFile<H>,
    began: Timestamp,
    next: Rotation,
)
    requires
        call_ensures(RotatingFile::<H>::enqueue_compression, (a, handle), id),
        call_ensures(Compression::record::<H>, (compression, id, b), ()),
        call_ensures(RotatingFile::<H>::collect_existing_files, (c, listing), found),
        call_ensures(
            Rotation::started_at::<H>,
            (Rotation::Compress, d, handle, began),
            next,
        ),
    ensures
        final(a).is_valid(),
        final(b).is_valid(),
        final(c).is_valid(),
        final(d).is_valid(),
{
}

/// A listing takes any path.
pub proof fn listing_takes_any_path(state: &mut State, path: LogPath)
    requires
        old(state).is_valid(),
    ensures
        call_requires(State::found_file, (state, path)),
        call_requires(State::remove, (state, &path)),
{
}

} // verus!
