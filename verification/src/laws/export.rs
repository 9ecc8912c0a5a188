//! Export.
use crate::errors::{CompressError, ExportError, NewFileError, RotateError};
use crate::export::{Export, ExportStep};
use crate::order::path_lt;
use crate::path::LogPath;
use crate::rotate::Rotation;
use crate::rotating_file::{Opening, RotatingFile};
use crate::state::paths_of;
use crate::storage::NewFile;
use crate::time::Timestamp;
use std::io;
use vstd::prelude::*;

verus! {

/// An export to a file begins with a rotation, and has copied nothing.
pub proof fn export_begins_with_a_flush<H>(file: RotatingFile<H>, dest: LogPath, export: Export<H>)
    requires
        call_ensures(RotatingFile::<H>::export, (&file, dest), export),
    ensures
        export.dest == dest,
        export.step == ExportStep::<H>::Rotate(Rotation::Flush),
        export.waiting@.len() == 0,
        export.files@.len() == 0,
        export.files_copied == 0,
        export.bytes_copied == 0,
{
}

/// The files that an export copies, once its output file is created, are those listed, in the order
/// of the listing, whatever the limits. None has been copied yet, and nothing else changes.
pub proof fn export_copies_what_is_listed<H>(
    before: Export<H>,
    file: RotatingFile<H>,
    next: Result<Export<H>, ExportError>,
)
    requires
        before.step is CreateOutput,
        call_ensures(Export::<H>::resume, (before, &file, Ok(())), next),
    ensures
        next matches Ok(after) && after.files@.len() == file.state@.len() && (forall|i: int|
            0 <= i < after.files@.len() ==> (#[trigger] after.files@[i])@ == file.state@[i])
            && after.files_copied == 0 && after.bytes_copied == 0 && after.dest == before.dest
            && after.waiting == before.waiting && (after.step is OpenInput <==> file.state@.len()
            > 0) && (after.step is Flush <==> file.state@.len() == 0),
{
    let after = next->Ok_0;
    let views = paths_of(after.files@);
    assert(views.len() == after.files@.len());
    assert forall|i: int| 0 <= i < after.files@.len() implies (#[trigger] after.files@[i])@
        == file.state@[i] by {
        assert(views[i] == after.files@[i]@);
    }
}

/// An export copies older files before newer ones: each of its input files comes before those
/// behind it.
pub proof fn export_copies_in_order<H>(
    before: Export<H>,
    file: RotatingFile<H>,
    next: Result<Export<H>, ExportError>,
    i: int,
    j: int,
)
    requires
        before.step is CreateOutput,
        call_ensures(Export::<H>::resume, (before, &file, Ok(())), next),
        file.is_valid(),
        next is Ok,
        0 <= i < j < next->Ok_0.files@.len(),
    ensures
        path_lt(next->Ok_0.files@[i]@, next->Ok_0.files@[j]@),
{
    export_copies_what_is_listed(before, file, next);
    let files = next->Ok_0.files@;
    assert(files[i]@ == file.state@[i] && files[j]@ == file.state@[j]);
}

/// What an export copies does not depend on the limits, nor on the current file or on what runs.
pub proof fn export_depends_on_the_listing_alone<H>(
    a: Export<H>,
    b: Export<H>,
    file: RotatingFile<H>,
    other: RotatingFile<H>,
    x: Result<Export<H>, ExportError>,
    y: Result<Export<H>, ExportError>,
    i: int,
)
    requires
        a.step is CreateOutput,
        b.step is CreateOutput,
        call_ensures(Export::<H>::resume, (a, &file, Ok(())), x),
        call_ensures(Export::<H>::resume, (b, &other, Ok(())), y),
        file.state == other.state,
    ensures
        x is Ok && y is Ok,
        x->Ok_0.files@.len() == y->Ok_0.files@.len(),
        0 <= i < x->Ok_0.files@.len() ==> x->Ok_0.files@[i]@ == y->Ok_0.files@[i]@,
{
    export_copies_what_is_listed(a, file, x);
    export_copies_what_is_listed(b, other, y);
    if 0 <= i < x->Ok_0.files@.len() {
        assert(x->Ok_0.files@[i]@ == file.state@[i]);
        assert(y->Ok_0.files@[i]@ == file.state@[i]);
    }
}

/// An output file that cannot be created is an error that names it.
pub proof fn output_that_is_not_created_is_an_error<H>(
    before: Export<H>,
    file: RotatingFile<H>,
    error: io::Error,
    next: Result<Export<H>, ExportError>,
)
    requires
        before.step is CreateOutput,
        call_ensures(Export::<H>::resume, (before, &file, Err(error)), next),
    ensures
        next == Err::<Export<H>, ExportError>(ExportError::CreateOutput(before.dest, error)),
{
}

/// An input file that is open is copied; one that cannot be opened is an error that names it.
pub proof fn input_is_opened_before_it_is_copied<H>(
    before: Export<H>,
    file: RotatingFile<H>,
    outcome: Result<(), io::Error>,
    next: Result<Export<H>, ExportError>,
)
    requires
        before.step is OpenInput,
        call_ensures(Export::<H>::resume, (before, &file, outcome), next),
    ensures
        outcome is Ok ==> (next matches Ok(after) && after.step is Copy && after.dest == before.dest
            && after.files == before.files && after.files_copied == before.files_copied
            && after.bytes_copied == before.bytes_copied && after.waiting == before.waiting),
        outcome matches Err(error) ==> (next matches Err(ExportError::OpenInput(path, cause))
            && path@ == before.files@[before.files_copied as int]@ && cause == error),
{
}

/// A file that was copied counts with all its bytes, and the next one follows until none is left.
/// A file that could not be copied is an error that names it and the output file.
pub proof fn files_are_copied_one_by_one<H>(
    before: Export<H>,
    outcome: Result<u64, io::Error>,
    next: Result<Export<H>, ExportError>,
)
    requires
        call_ensures(Export::<H>::copied, (before, outcome), next),
    ensures
        outcome matches Ok(bytes) ==> (next matches Ok(after) && after.bytes_copied
            == before.bytes_copied + bytes && after.files_copied == before.files_copied + 1
            && after.files == before.files && after.dest == before.dest && after.waiting
            == before.waiting && (after.files_copied < before.files@.len() ==> after.step
            is OpenInput) && (after.files_copied >= before.files@.len() ==> after.step is Flush)),
        outcome matches Err(error) ==> (next matches Err(ExportError::Copy(from, to, cause))
            && from@ == before.files@[before.files_copied as int]@ && to == before.dest && cause
            == error),
{
}

/// The output file is flushed, then synced; then the export is complete, with the bytes that were
/// copied. Where either fails, the error names the output file.
pub proof fn output_is_flushed_before_it_is_synced<H>(
    before: Export<H>,
    file: RotatingFile<H>,
    outcome: Result<(), io::Error>,
    next: Result<Export<H>, ExportError>,
)
    requires
        before.step is Flush || before.step is Sync,
        call_ensures(Export::<H>::resume, (before, &file, outcome), next),
    ensures
        outcome is Ok ==> (next matches Ok(after) && (before.step is Flush ==> after.step is Sync)
            && (before.step is Sync ==> after.step is Done) && after.bytes_copied
            == before.bytes_copied && after.files == before.files && after.files_copied
            == before.files_copied && after.dest == before.dest),
        outcome matches Err(error) ==> (before.step is Flush ==> next == Err::<
            Export<H>,
            ExportError,
        >(ExportError::Flush(before.dest, error))) && (before.step is Sync ==> next == Err::<
            Export<H>,
            ExportError,
        >(ExportError::Sync(before.dest, error))),
{
}

/// An export does not go on by itself from a step that has an outcome of its own kind.
pub proof fn export_stays_at_its_step<H>(
    before: Export<H>,
    file: RotatingFile<H>,
    outcome: Result<(), io::Error>,
    next: Result<Export<H>, ExportError>,
)
    requires
        before.step is Rotate || before.step is Join || before.step is Copy || before.step is Done,
        call_ensures(Export::<H>::resume, (before, &file, outcome), next),
    ensures
        next == Ok::<Export<H>, ExportError>(before),
{
}

/// Every compression that is waited for is waited for once: the last of those left is next. When
/// none is left, the output file is created. A compression that failed ends the export.
pub proof fn compressions_are_joined_one_by_one<H>(
    before: Export<H>,
    result: Result<(), CompressError>,
    next: Result<Export<H>, ExportError>,
)
    requires
        call_ensures(Export::<H>::joined, (before, result), next),
    ensures
        result is Ok ==> (next matches Ok(after) && after.dest == before.dest && after.files
            == before.files && after.files_copied == before.files_copied && after.bytes_copied
            == before.bytes_copied && if before.waiting@.len() == 0 {
            after.step is CreateOutput && after.waiting@.len() == 0
        } else {
            after.step == ExportStep::Join(before.waiting@.last()) && after.waiting@
                == before.waiting@.drop_last()
        }),
        result matches Err(error) ==> next == Err::<Export<H>, ExportError>(
            ExportError::Compression(error),
        ),
{
}

/// The rotation of an export flushes, syncs and deletes as any rotation does, whatever the limits,
/// and leaves the rest of the export as it is.
pub proof fn export_rotates_as_a_write_does<H>(
    before: Export<H>,
    file: &mut RotatingFile<H>,
    outcome: Result<(), io::Error>,
    next: Result<Export<H>, ExportError>,
)
    requires
        before.step == ExportStep::<H>::Rotate(Rotation::Flush) || before.step == ExportStep::<
            H,
        >::Rotate(Rotation::Sync) || before.step == ExportStep::<H>::Rotate(Rotation::Compress),
        call_ensures(Export::<H>::rotated, (before, file, outcome), next),
    ensures
        *final(file) == *old(file),
        next matches Ok(after) ==> after.dest == before.dest && after.files == before.files
            && after.files_copied == before.files_copied && after.bytes_copied
            == before.bytes_copied && after.waiting == before.waiting,
        before.step == ExportStep::<H>::Rotate(Rotation::Flush) ==> (match outcome {
            Ok(_) => next matches Ok(after) && after.step == ExportStep::<H>::Rotate(
                Rotation::Sync,
            ),
            Err(error) => next matches Err(ExportError::Rotate(RotateError::Flush(path, cause)))
                && path@ == old(file).current.path@ && cause == error,
        }),
        before.step == ExportStep::<H>::Rotate(Rotation::Sync) ==> (match outcome {
            Ok(_) => if (old(file).limits.files matches Some(max_files) && old(file).state@.len()
                + 2 > max_files) && old(file).state@.len() > 0 {
                next matches Ok(after) && after.step matches ExportStep::Rotate(
                    Rotation::Remove(path),
                ) && path@ == old(file).state@[0]
            } else {
                next matches Ok(after) && after.step == ExportStep::<H>::Rotate(Rotation::Compress)
            },
            Err(error) => next matches Err(ExportError::Rotate(RotateError::Sync(path, cause)))
                && path@ == old(file).current.path@ && cause == error,
        }),
        before.step == ExportStep::<H>::Rotate(Rotation::Compress) ==> (next matches Ok(after)
            && after.step == before.step),
{
}

/// A file that the rotation of an export has deleted is no longer listed; all others are.
pub proof fn export_deletes_one_file_at_a_time<H>(
    before: Export<H>,
    path: LogPath,
    file: &mut RotatingFile<H>,
    outcome: Result<(), io::Error>,
    next: Result<Export<H>, ExportError>,
)
    requires
        before.step == ExportStep::<H>::Rotate(Rotation::Remove(path)),
        call_ensures(Export::<H>::rotated, (before, file, outcome), next),
        old(file).state@.len() > 0,
        path@ == old(file).state@[0],
    ensures
        final(file).storage == old(file).storage,
        final(file).limits == old(file).limits,
        final(file).current == old(file).current,
        final(file).work == old(file).work,
        (match outcome {
            Ok(_) => {
                let kept = old(file).state@.drop_first();
                &&& final(file).state@ == kept
                &&& if (old(file).limits.files matches Some(max_files) && kept.len() + 2
                    > max_files) && kept.len() > 0 {
                    next matches Ok(after) && after.step matches ExportStep::Rotate(
                        Rotation::Remove(oldest),
                    ) && oldest@ == kept[0]
                } else {
                    next matches Ok(after) && after.step == ExportStep::<H>::Rotate(
                        Rotation::Compress,
                    )
                }
            },
            Err(error) => {
                &&& final(file).state == old(file).state
                &&& next == Err::<Export<H>, ExportError>(
                    ExportError::Rotate(RotateError::Remove(path, error)),
                )
            },
        }),
{
    if outcome is Ok {
        let listed = old(file).state@;
        assert(listed[0] == path@);
        assert(listed.remove(0) =~= listed.drop_first());
    }
}

/// The compression that the rotation of an export has started is recorded behind those that run.
/// Then a file is opened that begins at that moment.
pub proof fn export_records_its_compression<H>(
    before: Export<H>,
    file: &mut RotatingFile<H>,
    handle: H,
    began: Timestamp,
    next: Export<H>,
)
    requires
        before.step == ExportStep::<H>::Rotate(Rotation::Compress),
        call_ensures(Export::<H>::started_at, (before, file, handle, began), next),
    ensures
        final(file).storage == old(file).storage,
        final(file).limits == old(file).limits,
        final(file).current == old(file).current,
        final(file).state == old(file).state,
        final(file).work@.len() == old(file).work@.len() + 1,
        final(file).work@.drop_last() == old(file).work@,
        final(file).work@.last().1 == handle,
        next.step matches ExportStep::Rotate(Rotation::Open(opened)) && opened.began == began
            && opened.number == 0,
        next.dest == before.dest,
        next.waiting == before.waiting,
{
    assert(final(file).work@.drop_last() =~= old(file).work@);
}

/// Once the next log file is created, it is the current one, and empty; the export takes over all
/// compressions that run, and waits for the one that was started last. Where the name is taken
/// another file of that moment is tried, with the next number. Where the creation fails, so does
/// the export.
pub proof fn export_takes_over_what_runs<H>(
    before: Export<H>,
    opened: NewFile,
    file: &mut RotatingFile<H>,
    opening: Opening,
    next: Result<Export<H>, ExportError>,
)
    requires
        before.step == ExportStep::<H>::Rotate(Rotation::Open(opened)),
        call_ensures(Export::<H>::opened, (before, file, opening), next),
    ensures
        final(file).storage == old(file).storage,
        final(file).limits == old(file).limits,
        final(file).state == old(file).state,
        next matches Ok(after) ==> after.dest == before.dest && after.files == before.files
            && after.files_copied == before.files_copied && after.bytes_copied
            == before.bytes_copied,
        !(opening is Created) ==> *final(file) == *old(file),
        (match opening {
            Opening::Created => {
                let running = old(file).work@;
                &&& final(file).current.path == opened.path
                &&& final(file).current.began == opened.began
                &&& final(file).current.number == opened.number
                &&& final(file).current.bytes_written == 0
                &&& final(file).work@.len() == 0
                &&& next matches Ok(after) && if running.len() == 0 {
                    after.step is CreateOutput && after.waiting@.len() == 0
                } else {
                    after.step == ExportStep::Join(running.last().1) && after.waiting@.len()
                        == running.len() - 1 && forall|i: int|
                        0 <= i < after.waiting@.len() ==> #[trigger] after.waiting@[i]
                            == running[i].1
                }
            },
            Opening::Exists(error) | Opening::CompressedExists(error) => if opened.number
                < u64::MAX {
                next matches Ok(after) && after.step matches ExportStep::Rotate(
                    Rotation::Open(numbered),
                ) && numbered.began == opened.began && numbered.number == opened.number + 1
                    && after.waiting == before.waiting
            } else {
                next == Err::<Export<H>, ExportError>(
                    ExportError::Rotate(
                        RotateError::NewFile(NewFileError::Open(opened.path, error)),
                    ),
                )
            },
            Opening::Failed(error) => next == Err::<Export<H>, ExportError>(
                ExportError::Rotate(RotateError::NewFile(NewFileError::Open(opened.path, error))),
            ),
        }),
{
}

} // verus!
