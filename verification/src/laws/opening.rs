//! The files that operations open.
use crate::compress::{CompressStep, Compression};
use crate::errors::{ExportError, NewError, NewFileError, RotateError};
use crate::export::{Export, ExportStep};
use crate::gzip::Encoder;
use crate::path::LogPath;
use crate::rotate::Rotation;
use crate::rotating_file::{Current, Opening, RotatingFile};
use crate::storage::{file_name_is_unique, NewFile, Storage};
use crate::time::Timestamp;
use crate::write::Writing;
use std::io;
use vstd::prelude::*;

verus! {

/// A file that was created is the current one, and empty; one that could not be is an error that
/// names it.
pub proof fn created_file_is_empty(
    file: NewFile,
    outcome: Result<(), io::Error>,
    res: Result<Current, NewFileError>,
)
    requires
        call_ensures(NewFile::opened, (file, outcome), res),
    ensures
        outcome is Ok ==> (res matches Ok(current) && current.path == file.path && current.began
            == file.began && current.number == file.number && current.bytes_written == 0),
        outcome matches Err(error) ==> res == Err::<Current, NewFileError>(
            NewFileError::Open(file.path, error),
        ),
{
}

/// The file opened now is the one of some moment, without a number.
pub proof fn file_opened_now_is_of_its_moment(storage: Storage, res: NewFile, named: NewFile)
    requires
        call_ensures(Storage::open_new_file, (&storage,), res),
        call_ensures(Storage::open_new_file_at, (&storage, res.began), named),
    ensures
        res.path@ == named.path@,
        res.number == 0,
{
    file_name_is_unique(storage, res, named);
}

/// The first file of a storage is the one of its moment.
pub proof fn first_file_is_of_its_moment(
    storage: Storage,
    res: Result<NewFile, NewError>,
    named: NewFile,
)
    requires
        call_ensures(Storage::root_dir_created, (&storage, Ok(())), res),
        res is Ok ==> call_ensures(Storage::open_new_file_at, (&storage, res->Ok_0.began), named),
    ensures
        res matches Ok(file) && file.path@ == named.path@ && file.number == 0,
{
    file_name_is_unique(storage, res->Ok_0, named);
}

/// A rotation opens the file of the moment at which its compression was started, whatever the
/// limits.
pub proof fn rotation_opens_the_file_of_its_moment<H>(
    file: &mut RotatingFile<H>,
    handle: H,
    began: Timestamp,
    next: Rotation,
    named: NewFile,
)
    requires
        call_ensures(
            Rotation::started_at::<H>,
            (Rotation::Compress, file, handle, began),
            next,
        ),
        call_ensures(Storage::open_new_file_at, (&old(file).storage, began), named),
    ensures
        next matches Rotation::Open(opened) && opened.path@ == named.path@ && opened.began == began
            && opened.number == 0,
{
    file_name_is_unique(old(file).storage, next->Open_0, named);
}

/// A rotation whose compression was started now is one whose compression was started at some
/// moment.
pub proof fn rotation_goes_on_now<H>(
    file: &mut RotatingFile<H>,
    handle: H,
    next: Rotation,
    named: NewFile,
)
    requires
        call_ensures(Rotation::started::<H>, (Rotation::Compress, file, handle), next),
        next matches Rotation::Open(opened) ==> call_ensures(
            Storage::open_new_file_at,
            (&old(file).storage, opened.began),
            named,
        ),
        old(file).work.is_valid(),
    ensures
        final(file).storage == old(file).storage,
        final(file).limits == old(file).limits,
        final(file).current == old(file).current,
        final(file).state == old(file).state,
        final(file).work@.len() == old(file).work@.len() + 1,
        final(file).work@.drop_last() == old(file).work@,
        final(file).work@.last().1 == handle,
        forall|i: int|
            0 <= i < old(file).work@.len()
                ==> (#[trigger] old(file).work@[i]).0 != final(file).work@.last().0,
        next matches Rotation::Open(opened) && opened.path@ == named.path@ && opened.number == 0,
{
    assert(final(file).work@.drop_last() =~= old(file).work@);
    file_name_is_unique(old(file).storage, next->Open_0, named);
}

/// The rotation of a write opens the file of the moment at which its compression was started.
pub proof fn write_opens_the_file_of_its_moment<H>(
    file: &mut RotatingFile<H>,
    handle: H,
    began: Timestamp,
    next: Writing,
    named: NewFile,
)
    requires
        call_ensures(
            Writing::started_at::<H>,
            (Writing::Rotate(Rotation::Compress), file, handle, began),
            next,
        ),
        call_ensures(Storage::open_new_file_at, (&old(file).storage, began), named),
    ensures
        next matches Writing::Rotate(Rotation::Open(opened)) && opened.path@ == named.path@
            && opened.began == began && opened.number == 0,
{
    file_name_is_unique(old(file).storage, next->Rotate_0->Open_0, named);
}

/// The same holds where the compression was started now.
pub proof fn write_goes_on_now<H>(
    file: &mut RotatingFile<H>,
    handle: H,
    next: Writing,
    named: NewFile,
)
    requires
        call_ensures(
            Writing::started::<H>,
            (Writing::Rotate(Rotation::Compress), file, handle),
            next,
        ),
        next matches Writing::Rotate(Rotation::Open(opened)) ==> call_ensures(
            Storage::open_new_file_at,
            (&old(file).storage, opened.began),
            named,
        ),
        old(file).work.is_valid(),
    ensures
        final(file).storage == old(file).storage,
        final(file).limits == old(file).limits,
        final(file).current == old(file).current,
        final(file).state == old(file).state,
        final(file).work@.len() == old(file).work@.len() + 1,
        final(file).work@.drop_last() == old(file).work@,
        final(file).work@.last().1 == handle,
        forall|i: int|
            0 <= i < old(file).work@.len()
                ==> (#[trigger] old(file).work@[i]).0 != final(file).work@.last().0,
        next matches Writing::Rotate(Rotation::Open(opened)) && opened.path@ == named.path@
            && opened.number == 0,
{
    assert(final(file).work@.drop_last() =~= old(file).work@);
    file_name_is_unique(old(file).storage, next->Rotate_0->Open_0, named);
}

/// The rotation of an export opens the file of the moment at which its compression was started.
pub proof fn export_opens_the_file_of_its_moment<H>(
    before: Export<H>,
    file: &mut RotatingFile<H>,
    handle: H,
    began: Timestamp,
    next: Export<H>,
    named: NewFile,
)
    requires
        before.step == ExportStep::<H>::Rotate(Rotation::Compress),
        call_ensures(Export::<H>::started_at, (before, file, handle, began), next),
        call_ensures(Storage::open_new_file_at, (&old(file).storage, began), named),
        old(file).work.is_valid(),
    ensures
        next.step matches ExportStep::Rotate(Rotation::Open(opened)) && opened.path@ == named.path@
            && opened.began == began && opened.number == 0,
        next.dest == before.dest && next.waiting == before.waiting && next.files == before.files
            && next.files_copied == before.files_copied && next.bytes_copied
            == before.bytes_copied,
        forall|i: int|
            0 <= i < old(file).work@.len()
                ==> (#[trigger] old(file).work@[i]).0 != final(file).work@.last().0,
{
    file_name_is_unique(old(file).storage, next.step->Rotate_0->Open_0, named);
}

/// The same holds where the compression was started now.
pub proof fn export_goes_on_now<H>(
    before: Export<H>,
    file: &mut RotatingFile<H>,
    handle: H,
    next: Export<H>,
    named: NewFile,
)
    requires
        before.step == ExportStep::<H>::Rotate(Rotation::Compress),
        call_ensures(Export::<H>::started, (before, file, handle), next),
        next.step matches ExportStep::Rotate(Rotation::Open(opened)) ==> call_ensures(
            Storage::open_new_file_at,
            (&old(file).storage, opened.began),
            named,
        ),
        old(file).work.is_valid(),
    ensures
        final(file).storage == old(file).storage,
        final(file).limits == old(file).limits,
        final(file).current == old(file).current,
        final(file).state == old(file).state,
        final(file).work@.len() == old(file).work@.len() + 1,
        final(file).work@.drop_last() == old(file).work@,
        final(file).work@.last().1 == handle,
        forall|i: int|
            0 <= i < old(file).work@.len()
                ==> (#[trigger] old(file).work@[i]).0 != final(file).work@.last().0,
        next.step matches ExportStep::Rotate(Rotation::Open(opened)) && opened.path@ == named.path@
            && opened.number == 0,
        next.dest == before.dest && next.waiting == before.waiting && next.files == before.files
            && next.files_copied == before.files_copied && next.bytes_copied
            == before.bytes_copied,
{
    assert(final(file).work@.drop_last() =~= old(file).work@);
    file_name_is_unique(old(file).storage, next.step->Rotate_0->Open_0, named);
}

/// In place of a file whose name is taken, every operation opens the one with the next name.
pub proof fn next_name_is_opened<H>(
    taken: NewFile,
    error: io::Error,
    storage: Storage,
    following: NewFile,
    first: Result<NewFile, NewError>,
    file: RotatingFile<H>,
    rotation: Result<Rotation, RotateError>,
)
    requires
        call_ensures(
            NewFile::next_name,
            (taken, &storage, error),
            Ok::<NewFile, NewFileError>(following),
        ),
        call_ensures(Storage::first_name_taken, (&storage, taken, error), first),
        file.storage == storage,
        call_ensures(Rotation::name_taken::<H>, (Rotation::Open(taken), &file, error), rotation),
    ensures
        first matches Ok(opened) && opened.path@ == following.path@ && opened.began == taken.began
            && opened.number == taken.number + 1,
        rotation matches Ok(Rotation::Open(opened)) && opened.path@ == following.path@
            && opened.began == taken.began && opened.number == taken.number + 1,
{
    file_name_is_unique(storage, first->Ok_0, following);
    file_name_is_unique(storage, rotation->Ok_0->Open_0, following);
}

/// A rotation, a write and an export that find a name taken go on with the next name.
pub proof fn operations_go_on_with_the_next_name<H>(
    taken: NewFile,
    error: io::Error,
    opening: Opening,
    following: NewFile,
    a: &mut RotatingFile<H>,
    rotation: Result<Rotation, RotateError>,
    b: &mut RotatingFile<H>,
    writing: Result<Writing, io::Error>,
    c: &mut RotatingFile<H>,
    before: Export<H>,
    export: Result<Export<H>, ExportError>,
)
    requires
        opening == Opening::Exists(error) || opening == Opening::CompressedExists(error),
        old(a).storage == old(b).storage,
        old(a).storage == old(c).storage,
        call_ensures(
            NewFile::next_name,
            (taken, &old(a).storage, error),
            Ok::<NewFile, NewFileError>(following),
        ),
        call_ensures(Rotation::opened::<H>, (Rotation::Open(taken), a, opening), rotation),
        call_ensures(
            Writing::opened::<H>,
            (Writing::Rotate(Rotation::Open(taken)), b, opening),
            writing,
        ),
        before.step == ExportStep::<H>::Rotate(Rotation::Open(taken)),
        call_ensures(Export::<H>::opened, (before, c, opening), export),
    ensures
        rotation matches Ok(Rotation::Open(opened)) && opened.path@ == following.path@
            && opened.number == following.number,
        writing matches Ok(Writing::Rotate(Rotation::Open(opened))) && opened.path@
            == following.path@ && opened.number == following.number,
        export matches Ok(next) && next.step matches ExportStep::Rotate(Rotation::Open(opened))
            && opened.path@ == following.path@ && opened.number == following.number,
{
    let storage = old(a).storage;
    file_name_is_unique(storage, rotation->Ok_0->Open_0, following);
    file_name_is_unique(storage, writing->Ok_0->Rotate_0->Open_0, following);
    file_name_is_unique(storage, export->Ok_0.step->Rotate_0->Open_0, following);
}

/// A write goes to the file that its rotation has created. Where that fails the write fails with
/// that error, and the current file stays.
pub proof fn write_follows_the_creation<H>(
    opened: NewFile,
    file: &mut RotatingFile<H>,
    outcome: Result<(), io::Error>,
    next: Result<Writing, io::Error>,
)
    requires
        call_ensures(
            Writing::resume::<H>,
            (Writing::Rotate(Rotation::Open(opened)), file, outcome),
            next,
        ),
    ensures
        final(file).storage == old(file).storage,
        final(file).limits == old(file).limits,
        final(file).state == old(file).state,
        final(file).work == old(file).work,
        outcome is Ok ==> next == Ok::<Writing, io::Error>(Writing::Write)
            && final(file).current.path == opened.path
            && final(file).current.began == opened.began
            && final(file).current.number == opened.number
            && final(file).current.bytes_written == 0,
        outcome matches Err(error) ==> next == Err::<Writing, io::Error>(error)
            && final(file).current == old(file).current,
{
}

/// An export whose rotation has created its file takes over all compressions that run, and waits
/// for the one that was started last. Where the creation fails, so does the export.
pub proof fn export_follows_the_creation<H>(
    before: Export<H>,
    opened: NewFile,
    file: &mut RotatingFile<H>,
    outcome: Result<(), io::Error>,
    next: Result<Export<H>, ExportError>,
)
    requires
        before.step == ExportStep::<H>::Rotate(Rotation::Open(opened)),
        call_ensures(Export::<H>::rotated, (before, file, outcome), next),
    ensures
        final(file).storage == old(file).storage,
        final(file).limits == old(file).limits,
        final(file).state == old(file).state,
        outcome matches Err(error) ==> *final(file) == *old(file) && next == Err::<
            Export<H>,
            ExportError,
        >(ExportError::Rotate(RotateError::NewFile(NewFileError::Open(opened.path, error)))),
        outcome is Ok ==> {
            let running = old(file).work@;
            &&& final(file).current.path == opened.path
            &&& final(file).current.began == opened.began
            &&& final(file).current.number == opened.number
            &&& final(file).current.bytes_written == 0
            &&& final(file).work@.len() == 0
            &&& next matches Ok(after) && after.dest == before.dest && after.files == before.files
                && after.files_copied == before.files_copied && after.bytes_copied
                == before.bytes_copied && if running.len() == 0 {
                after.step is CreateOutput && after.waiting@.len() == 0
            } else {
                after.step == ExportStep::Join(running.last().1) && after.waiting@.len()
                    == running.len() - 1 && forall|i: int|
                    0 <= i < after.waiting@.len() ==> #[trigger] after.waiting@[i] == running[i].1
            }
        },
{
}

/// What the encoder has given out is written, and at the end of the input it is what the flush gave
/// out; the files stay the same.
pub proof fn encoded_bytes_are_written(
    in_path: LogPath,
    out_path: LogPath,
    encoder: Encoder,
    out: Vec<u8>,
    at_end: bool,
    res: Compression,
)
    requires
        call_ensures(Compression::encoded, (in_path, out_path, encoder, out, at_end), res),
    ensures
        res.in_path == in_path,
        res.out_path == out_path,
        at_end ==> res.step == CompressStep::Flush(encoder, out),
        !at_end ==> res.step == CompressStep::Write(encoder, out),
{
}

} // verus!
